//! Text as sequences of characters: comparing, slicing, joining, and the
//! decimal notation of numbers.

use vstd::prelude::*;
use vstd::utf8::*;

verus! {

/// Number of bytes that `s` takes in UTF-8.
pub open spec fn utf8_len(s: Seq<char>) -> nat {
    encode_utf8(s).len()
}

/// UTF-8 encodes a concatenation piece by piece.
pub proof fn lemma_encode_concat(a: Seq<char>, b: Seq<char>)
    ensures
        encode_utf8(a + b) == encode_utf8(a) + encode_utf8(b),
        utf8_len(a + b) == utf8_len(a) + utf8_len(b),
    decreases a.len(),
{
    if a.len() == 0 {
        assert(a + b =~= b);
        assert(encode_utf8(a) =~= Seq::<u8>::empty());
    } else {
        let rest = a.drop_first();
        assert((a + b).drop_first() =~= rest + b);
        lemma_encode_concat(rest, b);
        assert((a + b)[0] == a[0]);
        assert(encode_utf8(a + b) =~= encode_utf8(a) + encode_utf8(b));
    }
}

/// Two texts with one encoding are one text.
pub proof fn lemma_encode_injective(a: Seq<char>, b: Seq<char>)
    requires
        encode_utf8(a) == encode_utf8(b),
    ensures
        a == b,
{
    encode_utf8_decode_utf8(a);
    encode_utf8_decode_utf8(b);
}

/// A text of no bytes has no characters, and the other way round.
pub proof fn lemma_utf8_len_zero(a: Seq<char>)
    ensures
        utf8_len(a) == 0 <==> a.len() == 0,
        utf8_len(a) >= a.len(),
    decreases a.len(),
{
    if a.len() > 0 {
        lemma_utf8_len_zero(a.drop_first());
        assert(a =~= seq![a[0]] + a.drop_first());
        assert(encode_utf8(a) == encode_scalar(a[0] as u32) + encode_utf8(a.drop_first()));
    }
}

/// `String::push_str` of std appends a text.
pub assume_specification[ String::push_str ](target: &mut String, other: &str)
    ensures
        final(target)@ == old(target)@ + other@,
;

/// `String::push` of std appends one character.
pub assume_specification[ String::push ](target: &mut String, c: char)
    ensures
        final(target)@ == old(target)@.push(c),
;

/// Number of bytes of `s`.
pub fn byte_len(s: &str) -> (n: usize)
    ensures
        n == utf8_len(s@),
{
    s.as_bytes().len()
}

/// Whether two texts are the same.
pub fn same(a: &str, b: &str) -> (r: bool)
    ensures
        r == (a@ == b@),
{
    let x = a.as_bytes();
    let y = b.as_bytes();
    if x.len() != y.len() {
        return false;
    }
    let mut i: usize = 0;
    while i < x.len()
        invariant
            x@ == encode_utf8(a@),
            y@ == encode_utf8(b@),
            x@.len() == y@.len(),
            i <= x@.len(),
            forall|j: int| 0 <= j < i ==> x@[j] == y@[j],
        decreases x@.len() - i,
    {
        if x[i] != y[i] {
            return false;
        }
        i += 1;
    }
    proof {
        assert(x@ =~= y@);
        lemma_encode_injective(a@, b@);
    }
    true
}

/// The characters of `s`, in order.
pub fn chars_of(s: &str) -> (r: Vec<char>)
    ensures
        r@ == s@,
{
    let mut out: Vec<char> = Vec::new();
    for c in it: s.chars()
        invariant
            out@ == s@.take(it.index() as int),
            it.seq() == s@,
    {
        out.push(c);
        assert(s@.take(it.index() as int + 1) =~= s@.take(it.index() as int).push(c));
    }
    assert(s@.take(s@.len() as int) =~= s@);
    out
}

/// The text made of the characters from `from` up to `to`.
pub fn text_of(chars: &Vec<char>, from: usize, to: usize) -> (r: String)
    requires
        from <= to <= chars@.len(),
    ensures
        r@ == chars@.subrange(from as int, to as int),
{
    let mut out = String::new();
    let mut i: usize = from;
    while i < to
        invariant
            from <= i <= to <= chars@.len(),
            out@ == chars@.subrange(from as int, i as int),
        decreases to - i,
    {
        out.push(chars[i]);
        i += 1;
        assert(chars@.subrange(from as int, i as int) =~= chars@.subrange(
            from as int,
            i as int - 1,
        ).push(chars@[i as int - 1]));
    }
    out
}

/// Control characters, as Unicode's general category `Cc` has them.
pub open spec fn is_control_spec(c: char) -> bool {
    c as u32 <= 0x1f || 0x7f <= c as u32 <= 0x9f
}

/// Whether `c` is a control character.
pub fn is_control(c: char) -> (r: bool)
    ensures
        r == is_control_spec(c),
{
    let code: u32 = c as u32;
    code <= 0x1f || (0x7f <= code && code <= 0x9f)
}

/// Whether some character of `s` is a control character.
pub open spec fn has_control(s: Seq<char>) -> bool {
    exists|i: int| 0 <= i < s.len() && is_control_spec(#[trigger] s[i])
}

/// Whether `s` holds a control character.
pub fn any_control(s: &str) -> (r: bool)
    ensures
        r == has_control(s@),
{
    let chars = chars_of(s);
    let mut i: usize = 0;
    while i < chars.len()
        invariant
            chars@ == s@,
            i <= chars@.len(),
            forall|j: int| 0 <= j < i ==> !is_control_spec(#[trigger] s@[j]),
        decreases chars@.len() - i,
    {
        if is_control(chars[i]) {
            assert(is_control_spec(s@[i as int]));
            return true;
        }
        i += 1;
    }
    false
}

/// Characters with Unicode's `White_Space` property.
pub open spec fn is_space_spec(c: char) -> bool {
    let n = c as u32;
    ||| 0x9 <= n <= 0xd
    ||| n == 0x20
    ||| n == 0x85
    ||| n == 0xa0
    ||| n == 0x1680
    ||| 0x2000 <= n <= 0x200a
    ||| n == 0x2028
    ||| n == 0x2029
    ||| n == 0x202f
    ||| n == 0x205f
    ||| n == 0x3000
}

/// Whether `c` is white space.
pub fn is_space(c: char) -> (r: bool)
    ensures
        r == is_space_spec(c),
{
    let n: u32 = c as u32;
    (0x9 <= n && n <= 0xd) || n == 0x20 || n == 0x85 || n == 0xa0 || n == 0x1680 || (0x2000 <= n
        && n <= 0x200a) || n == 0x2028 || n == 0x2029 || n == 0x202f || n == 0x205f || n == 0x3000
}

/// `s` without the white space that it starts with.
pub open spec fn trim_start_spec(s: Seq<char>) -> Seq<char>
    decreases s.len(),
{
    if s.len() > 0 && is_space_spec(s[0]) {
        trim_start_spec(s.drop_first())
    } else {
        s
    }
}

/// `s` without the white space that it ends with.
pub open spec fn trim_end_spec(s: Seq<char>) -> Seq<char>
    decreases s.len(),
{
    if s.len() > 0 && is_space_spec(s.last()) {
        trim_end_spec(s.drop_last())
    } else {
        s
    }
}

/// `s` without the white space around it.
pub open spec fn trim_spec(s: Seq<char>) -> Seq<char> {
    trim_end_spec(trim_start_spec(s))
}

/// `s` without the white space around it.
pub fn trim(s: &str) -> (r: String)
    ensures
        r@ == trim_spec(s@),
{
    let chars = chars_of(s);
    let mut from: usize = 0;
    proof {
        assert(chars@.skip(0) =~= s@);
    }
    while from < chars.len() && is_space(chars[from])
        invariant
            chars@ == s@,
            from <= chars@.len(),
            trim_start_spec(s@) == trim_start_spec(chars@.skip(from as int)),
        decreases chars@.len() - from,
    {
        assert(chars@.skip(from as int).drop_first() =~= chars@.skip(from as int + 1));
        from += 1;
    }
    let mut to: usize = chars.len();
    proof {
        assert(trim_start_spec(s@) == chars@.skip(from as int));
        assert(chars@.subrange(from as int, to as int) =~= chars@.skip(from as int));
    }
    while from < to && is_space(chars[to - 1])
        invariant
            chars@ == s@,
            from <= to <= chars@.len(),
            trim_spec(s@) == trim_end_spec(chars@.subrange(from as int, to as int)),
        decreases to,
    {
        assert(chars@.subrange(from as int, to as int).drop_last() =~= chars@.subrange(
            from as int,
            to as int - 1,
        ));
        to -= 1;
    }
    text_of(&chars, from, to)
}

/// Whether `s` starts with `prefix`.
pub open spec fn starts_with_spec(s: Seq<char>, prefix: Seq<char>) -> bool {
    prefix.len() <= s.len() && s.take(prefix.len() as int) == prefix
}

/// What follows `prefix` in `s`, if `s` starts with it.
pub fn strip_prefix(s: &str, prefix: &str) -> (r: Option<String>)
    ensures
        match r {
            Some(rest) => starts_with_spec(s@, prefix@) && rest@ == s@.skip(prefix@.len() as int),
            None => !starts_with_spec(s@, prefix@),
        },
{
    let chars = chars_of(s);
    let head = chars_of(prefix);
    if head.len() > chars.len() {
        return None;
    }
    let mut i: usize = 0;
    while i < head.len()
        invariant
            chars@ == s@,
            head@ == prefix@,
            head@.len() <= chars@.len(),
            i <= head@.len(),
            forall|j: int| 0 <= j < i ==> chars@[j] == head@[j],
        decreases head@.len() - i,
    {
        if chars[i] != head[i] {
            assert(s@.take(prefix@.len() as int)[i as int] != prefix@[i as int]);
            return None;
        }
        i += 1;
    }
    assert(s@.take(prefix@.len() as int) =~= prefix@);
    assert(chars@.subrange(head@.len() as int, chars@.len() as int) =~= s@.skip(
        prefix@.len() as int,
    ));
    Some(text_of(&chars, head.len(), chars.len()))
}

/// Whether `s` starts with `prefix`.
pub fn starts_with(s: &str, prefix: &str) -> (r: bool)
    ensures
        r == starts_with_spec(s@, prefix@),
{
    strip_prefix(s, prefix).is_some()
}

/// The first `count` characters of `s`, or all of them if there are fewer.
pub open spec fn first_chars_spec(s: Seq<char>, count: nat) -> Seq<char> {
    if s.len() <= count {
        s
    } else {
        s.take(count as int)
    }
}

/// The first `count` characters of `s`, or all of them if there are fewer.
pub fn first_chars(s: &str, count: usize) -> (r: String)
    ensures
        r@ == first_chars_spec(s@, count as nat),
{
    let chars = chars_of(s);
    let to: usize = if chars.len() <= count {
        chars.len()
    } else {
        count
    };
    let out = text_of(&chars, 0, to);
    assert(out@ =~= first_chars_spec(s@, count as nat));
    out
}

/// The texts of `parts` in order, with `separator` between each two.
pub open spec fn join_spec(parts: Seq<Seq<char>>, separator: Seq<char>) -> Seq<char>
    decreases parts.len(),
{
    if parts.len() == 0 {
        Seq::empty()
    } else if parts.len() == 1 {
        parts[0]
    } else {
        join_spec(parts.drop_last(), separator) + separator + parts.last()
    }
}

/// The views of a list of texts.
pub open spec fn views(parts: Seq<String>) -> Seq<Seq<char>> {
    Seq::new(parts.len(), |i: int| parts[i].deep_view())
}

/// The texts of `parts` in order, with `separator` between each two.
pub fn join(parts: &Vec<String>, separator: &str) -> (r: String)
    ensures
        r@ == join_spec(views(parts@), separator@),
{
    let mut out = String::new();
    let mut i: usize = 0;
    while i < parts.len()
        invariant
            i <= parts@.len(),
            out@ == join_spec(views(parts@.take(i as int)), separator@),
        decreases parts@.len() - i,
    {
        if i > 0 {
            out.push_str(separator);
        }
        out.push_str(parts[i].as_str());
        proof {
            let before = views(parts@.take(i as int));
            let after = views(parts@.take(i as int + 1));
            assert(after.drop_last() =~= before);
            assert(after.last() == parts@[i as int]@);
            if i == 0 {
                assert(out@ =~= parts@[0]@);
                assert(after[0] == parts@[0]@);
            }
        }
        i += 1;
    }
    assert(parts@.take(parts@.len() as int) =~= parts@);
    out
}

/// `c` in lower case if it is an ASCII letter, else `c` itself.
pub open spec fn ascii_lower_spec(c: char) -> char {
    if 'A' <= c <= 'Z' {
        ((c as u32 + 32) as u32) as char
    } else {
        c
    }
}

/// Whether two texts differ at most in the case of ASCII letters.
pub open spec fn same_ignoring_case_spec(a: Seq<char>, b: Seq<char>) -> bool {
    a.len() == b.len() && forall|i: int|
        0 <= i < a.len() ==> ascii_lower_spec(#[trigger] a[i]) == ascii_lower_spec(b[i])
}

fn ascii_lower(c: char) -> (r: char)
    ensures
        r == ascii_lower_spec(c),
{
    if 'A' <= c && c <= 'Z' {
        let code: u8 = (c as u32 as u8) + 32;
        code as char
    } else {
        c
    }
}

/// Whether two texts differ at most in the case of ASCII letters.
pub fn same_ignoring_case(a: &str, b: &str) -> (r: bool)
    ensures
        r == same_ignoring_case_spec(a@, b@),
{
    let x = chars_of(a);
    let y = chars_of(b);
    if x.len() != y.len() {
        return false;
    }
    let mut i: usize = 0;
    while i < x.len()
        invariant
            x@ == a@,
            y@ == b@,
            x@.len() == y@.len(),
            i <= x@.len(),
            forall|j: int| 0 <= j < i ==> ascii_lower_spec(#[trigger] x@[j]) == ascii_lower_spec(y@[j]),
        decreases x@.len() - i,
    {
        if ascii_lower(x[i]) != ascii_lower(y[i]) {
            assert(ascii_lower_spec(a@[i as int]) != ascii_lower_spec(b@[i as int]));
            return false;
        }
        i += 1;
    }
    true
}


/// `a` followed by `b`.
pub fn concat2(a: &str, b: &str) -> (r: String)
    ensures
        r@ == a@ + b@,
{
    let mut out = a.to_owned();
    out.push_str(b);
    out
}

/// `a`, `b` and `c`, one after the other.
pub fn concat3(a: &str, b: &str, c: &str) -> (r: String)
    ensures
        r@ == a@ + b@ + c@,
{
    let mut out = concat2(a, b);
    out.push_str(c);
    out
}

/// `a`, `b`, `c` and `d`, one after the other.
pub fn concat4(a: &str, b: &str, c: &str, d: &str) -> (r: String)
    ensures
        r@ == a@ + b@ + c@ + d@,
{
    let mut out = concat3(a, b, c);
    out.push_str(d);
    out
}

/// `a`, `b`, `c`, `d` and `e`, one after the other.
pub fn concat5(a: &str, b: &str, c: &str, d: &str, e: &str) -> (r: String)
    ensures
        r@ == a@ + b@ + c@ + d@ + e@,
{
    let mut out = concat4(a, b, c, d);
    out.push_str(e);
    out
}

/// Where a relative name lies below a directory: an empty directory gives the name
/// itself, and a slash that ends the directory is not repeated.
pub open spec fn below_spec(directory: Seq<char>, name: Seq<char>) -> Seq<char> {
    if directory.len() == 0 {
        name
    } else if directory.last() == '/' {
        directory + name
    } else {
        directory + "/"@ + name
    }
}

/// Where a relative name lies below a directory.
pub fn below(directory: &str, name: &str) -> (r: String)
    ensures
        r@ == below_spec(directory@, name@),
{
    let chars = chars_of(directory);
    let count: usize = chars.len();
    if count == 0 {
        return name.to_owned();
    }
    if chars[count - 1] == '/' {
        return concat2(directory, name);
    }
    concat3(directory, "/", name)
}

/// The decimal digit of `d`, for `d` below ten.
pub open spec fn digit_spec(d: nat) -> char {
    (48 + d) as char
}

/// `n` in decimal notation, without leading zeros.
pub open spec fn decimal(n: nat) -> Seq<char>
    decreases n,
{
    if n < 10 {
        seq![digit_spec(n)]
    } else {
        decimal(n / 10).push(digit_spec(n % 10))
    }
}

/// `n` in decimal notation.
pub fn decimal_text(n: u64) -> (r: String)
    ensures
        r@ == decimal(n as nat),
    decreases n,
{
    if n < 10 {
        let mut out = String::new();
        out.push((48 + n as u8) as char);
        assert(out@ =~= seq![digit_spec(n as nat)]);
        out
    } else {
        let mut out = decimal_text(n / 10);
        out.push((48 + (n % 10) as u8) as char);
        out
    }
}

/// `n` in decimal notation.
pub fn decimal_of(n: usize) -> (r: String)
    ensures
        r@ == decimal(n as nat),
{
    decimal_text(n as u64)
}

/// An integer in decimal digits, with a sign if it is negative.
pub open spec fn signed(n: int) -> Seq<char> {
    if n < 0 {
        "-"@ + decimal((-n) as nat)
    } else {
        decimal(n as nat)
    }
}

/// An integer in decimal digits, with a sign if it is negative.
pub fn signed_text(n: i64) -> (r: String)
    ensures
        r@ == signed(n as int),
{
    if n >= 0 {
        decimal_text(n as u64)
    } else {
        let magnitude: u64 = ((-(n + 1)) as u64) + 1;
        concat2("-", decimal_text(magnitude).as_str())
    }
}

/// Whether every character of `s` is an ASCII digit.
pub open spec fn all_digits(s: Seq<char>) -> bool {
    forall|i: int| 0 <= i < s.len() ==> '0' <= #[trigger] s[i] <= '9'
}

/// The number that the ASCII digits of `s` write down.
pub open spec fn digits_value(s: Seq<char>) -> nat
    decreases s.len(),
{
    if s.len() == 0 {
        0
    } else {
        (digits_value(s.drop_last()) * 10 + (s.last() as u32 - 48)) as nat
    }
}

/// What `s` is read as by the integer parser of an unsigned type whose largest
/// value is `max`: an optional plus sign and one or more digits.
pub open spec fn parse_number(s: Seq<char>, max: nat) -> Option<nat> {
    let digits = if s.len() > 1 && s[0] == '+' {
        s.drop_first()
    } else {
        s
    };
    if digits.len() == 0 || !all_digits(digits) || digits_value(digits) > max {
        None
    } else {
        Some(digits_value(digits))
    }
}

proof fn lemma_digits_monotone(s: Seq<char>, i: int)
    requires
        all_digits(s),
        0 <= i <= s.len(),
    ensures
        digits_value(s.take(i)) <= digits_value(s),
    decreases s.len() - i,
{
    if i == s.len() {
        assert(s.take(i) =~= s);
    } else {
        assert(s.take(i + 1).drop_last() =~= s.take(i));
        assert(s.take(i + 1).last() == s[i]);
        lemma_digits_monotone(s, i + 1);
    }
}

/// Reads an unsigned number as std's integer parser does.
pub fn parse_u64(s: &str) -> (r: Option<u64>)
    ensures
        match r {
            Some(n) => parse_number(s@, u64::MAX as nat) == Some(n as nat),
            None => parse_number(s@, u64::MAX as nat) is None,
        },
{
    let chars = chars_of(s);
    let start: usize = if chars.len() > 1 && chars[0] == '+' {
        1
    } else {
        0
    };
    let ghost digits = if s@.len() > 1 && s@[0] == '+' {
        s@.drop_first()
    } else {
        s@
    };
    if chars.len() == start {
        return None;
    }
    let mut value: u64 = 0;
    let mut i: usize = start;
    while i < chars.len()
        invariant
            chars@ == s@,
            start <= i <= chars@.len(),
            start <= 1,
            digits == s@.skip(start as int),
            digits == (if s@.len() > 1 && s@[0] == '+' {
                s@.drop_first()
            } else {
                s@
            }),
            forall|j: int| 0 <= j < i - start ==> '0' <= #[trigger] digits[j] <= '9',
            value == digits_value(digits.take(i - start)),
        decreases chars@.len() - i,
    {
        let c = chars[i];
        assert(c == digits[i - start]);
        if c < '0' || c > '9' {
            return None;
        }
        let d: u64 = (c as u32 - 48) as u64;
        assert(digits.take(i - start + 1).drop_last() =~= digits.take(i - start));
        assert(digits_value(digits.take(i - start + 1)) == value * 10 + d);
        if value > 1844674407370955161 || (value == 1844674407370955161 && d > 5) {
            proof {
                if all_digits(digits) {
                    lemma_digits_monotone(digits, i - start + 1);
                }
            }
            return None;
        }
        value = value * 10 + d;
        i += 1;
    }
    assert(digits.take(digits.len() as int) =~= digits);
    Some(value)
}

/// Reads a `usize` as std's integer parser does.
pub fn parse_usize(s: &str) -> (r: Option<usize>)
    ensures
        match r {
            Some(n) => parse_number(s@, usize::MAX as nat) == Some(n as nat),
            None => parse_number(s@, usize::MAX as nat) is None,
        },
{
    match parse_u64(s) {
        Some(n) => if n <= usize::MAX as u64 {
            Some(n as usize)
        } else {
            None
        },
        None => None,
    }
}

/// The pieces of `s` between the characters that `sep` marks, in order. There is
/// one piece more than there are marked characters.
pub open spec fn split_where(s: Seq<char>, sep: spec_fn(char) -> bool) -> Seq<Seq<char>>
    decreases s.len(),
{
    if s.len() == 0 {
        seq![Seq::empty()]
    } else {
        let before = split_where(s.drop_last(), sep);
        if sep(s.last()) {
            before.push(Seq::empty())
        } else {
            before.update(before.len() - 1, before.last().push(s.last()))
        }
    }
}

/// The test for one character.
pub open spec fn is_char(c: char) -> spec_fn(char) -> bool {
    |x: char| x == c
}

/// The pieces of `s` between the occurrences of the character `c`.
pub open spec fn split_char(s: Seq<char>, c: char) -> Seq<Seq<char>> {
    split_where(s, is_char(c))
}

/// There is at least one piece.
pub proof fn lemma_split_nonempty(s: Seq<char>, sep: spec_fn(char) -> bool)
    ensures
        split_where(s, sep).len() >= 1,
        split_where(s, sep).len() <= s.len() + 1,
    decreases s.len(),
{
    if s.len() > 0 {
        lemma_split_nonempty(s.drop_last(), sep);
    }
}

/// The pieces of `s` between the occurrences of the character `c`.
pub fn split(s: &str, c: char) -> (r: Vec<String>)
    ensures
        views(r@) == split_char(s@, c),
{
    let chars = chars_of(s);
    let mut out: Vec<String> = Vec::new();
    let mut piece = String::new();
    let mut i: usize = 0;
    let ghost sep = is_char(c);
    assert(chars@.take(0) =~= Seq::<char>::empty());
    assert(views(out@).push(piece@) =~= split_where(chars@.take(0), sep));
    while i < chars.len()
        invariant
            chars@ == s@,
            i <= chars@.len(),
            sep == is_char(c),
            views(out@).push(piece@) == split_where(chars@.take(i as int), sep),
        decreases chars@.len() - i,
    {
        let ghost before = views(out@).push(piece@);
        assert(chars@.take(i as int + 1).drop_last() =~= chars@.take(i as int));
        if chars[i] == c {
            out.push(piece);
            piece = String::new();
            assert(views(out@) =~= before);
        } else {
            piece.push(chars[i]);
        }
        i += 1;
        assert(views(out@).push(piece@) =~= split_where(chars@.take(i as int), sep));
    }
    let ghost pieces = views(out@).push(piece@);
    out.push(piece);
    assert(chars@.take(chars@.len() as int) =~= s@);
    assert(views(out@) =~= pieces);
    out
}

/// Whether the character `c` does not occur in `s`.
pub open spec fn free_of(s: Seq<char>, c: char) -> bool {
    forall|i: int| 0 <= i < s.len() ==> #[trigger] s[i] != c
}

/// A text without the separator is its only piece.
pub proof fn lemma_split_free(s: Seq<char>, c: char)
    requires
        free_of(s, c),
    ensures
        split_char(s, c) == seq![s],
    decreases s.len(),
{
    if s.len() == 0 {
        assert(s =~= Seq::<char>::empty());
        assert(split_char(s, c) =~= seq![s]);
    } else {
        assert(free_of(s.drop_last(), c));
        lemma_split_free(s.drop_last(), c);
        assert(s[s.len() - 1] != c);
        assert(!is_char(c)(s.last()));
        assert(s.drop_last().push(s.last()) =~= s);
        assert(split_char(s, c) =~= seq![s]);
    }
}

/// What follows the last separator is the last piece.
pub proof fn lemma_split_append(a: Seq<char>, b: Seq<char>, c: char)
    requires
        free_of(b, c),
    ensures
        split_char(a + seq![c] + b, c) == split_char(a, c).push(b),
    decreases b.len(),
{
    let s = a + seq![c] + b;
    if b.len() == 0 {
        assert(b =~= Seq::<char>::empty());
        assert(s.drop_last() =~= a);
        assert(s.last() == c);
        assert(is_char(c)(s.last()));
        assert(split_char(s, c) =~= split_char(a, c).push(b));
    } else {
        assert(free_of(b.drop_last(), c));
        lemma_split_append(a, b.drop_last(), c);
        assert(s.drop_last() =~= a + seq![c] + b.drop_last());
        assert(s.last() == b[b.len() - 1]);
        assert(b[b.len() - 1] != c);
        assert(!is_char(c)(s.last()));
        assert(b.drop_last().push(b.last()) =~= b);
        assert(split_char(s, c) =~= split_char(a, c).push(b));
    }
}

/// No piece holds the separator.
pub proof fn lemma_pieces_free(s: Seq<char>, c: char)
    ensures
        forall|i: int| 0 <= i < split_char(s, c).len() ==> free_of(#[trigger] split_char(s, c)[i], c),
    decreases s.len(),
{
    if s.len() > 0 {
        lemma_pieces_free(s.drop_last(), c);
        lemma_split_nonempty(s.drop_last(), is_char(c));
        let before = split_char(s.drop_last(), c);
        assert forall|i: int| 0 <= i < split_char(s, c).len() implies free_of(
            #[trigger] split_char(s, c)[i],
            c,
        ) by {
            if i < before.len() {
                assert(free_of(before[i], c));
                assert(free_of(before[before.len() - 1], c));
            }
        }
    }
}

/// Pieces without the separator, joined by it, split into the same pieces again.
pub proof fn lemma_split_joined(parts: Seq<Seq<char>>, c: char)
    requires
        parts.len() > 0,
        forall|i: int| 0 <= i < parts.len() ==> free_of(#[trigger] parts[i], c),
    ensures
        split_char(join_spec(parts, seq![c]), c) == parts,
    decreases parts.len(),
{
    if parts.len() == 1 {
        lemma_split_free(parts[0], c);
        assert(parts =~= seq![parts[0]]);
    } else {
        let front = parts.drop_last();
        assert forall|i: int| 0 <= i < front.len() implies free_of(#[trigger] front[i], c) by {
            assert(front[i] == parts[i]);
        }
        lemma_split_joined(front, c);
        lemma_split_append(join_spec(front, seq![c]), parts.last(), c);
        assert(front.push(parts.last()) =~= parts);
    }
}

/// White space as `split_ascii_whitespace` knows it.
pub open spec fn is_ascii_space(c: char) -> bool {
    c == ' ' || c == '\t' || c == '\n' || c == '\r' || c as u32 == 0xc
}

/// The maximal runs of characters of `s` that are no ASCII white space.
pub open spec fn words_spec(s: Seq<char>) -> Seq<Seq<char>> {
    split_where(s, |c: char| is_ascii_space(c)).filter(|w: Seq<char>| w.len() > 0)
}

/// The words of `s`, separated by ASCII white space.
pub fn words(s: &str) -> (r: Vec<String>)
    ensures
        views(r@) == words_spec(s@),
{
    let chars = chars_of(s);
    let mut out: Vec<String> = Vec::new();
    let mut piece = String::new();
    let mut i: usize = 0;
    let ghost sep = |c: char| is_ascii_space(c);
    let ghost full = |w: Seq<char>| w.len() > 0;
    let ghost mut pieces: Seq<Seq<char>> = Seq::empty();
    proof {
        reveal(Seq::filter);
        assert(chars@.take(0) =~= Seq::<char>::empty());
        assert(pieces.push(piece@) =~= split_where(chars@.take(0), sep));
        assert(views(out@) =~= pieces.filter(full));
    }
    while i < chars.len()
        invariant
            chars@ == s@,
            i <= chars@.len(),
            sep == |c: char| is_ascii_space(c),
            full == |w: Seq<char>| w.len() > 0,
            pieces.push(piece@) == split_where(chars@.take(i as int), sep),
            views(out@) == pieces.filter(full),
        decreases chars@.len() - i,
    {
        let ghost before = pieces.push(piece@);
        let ghost view_before = views(out@);
        let c = chars[i];
        assert(chars@.take(i as int + 1).drop_last() =~= chars@.take(i as int));
        if c == ' ' || c == '\t' || c == '\n' || c == '\r' || c as u32 == 0xc {
            proof {
                reveal(Seq::filter);
                assert(before.drop_last() =~= pieces);
                pieces = before;
            }
            let ghost last = piece@;
            if !piece.as_str().is_empty() {
                out.push(piece);
                assert(views(out@) =~= view_before.push(last));
            }
            piece = String::new();
        } else {
            piece.push(c);
        }
        i += 1;
        assert(pieces.push(piece@) =~= split_where(chars@.take(i as int), sep));
    }
    assert(chars@.take(chars@.len() as int) =~= s@);
    let ghost last = piece@;
    let ghost view_before = views(out@);
    proof {
        reveal(Seq::filter);
        assert(pieces.push(last).drop_last() =~= pieces);
    }
    if !piece.as_str().is_empty() {
        out.push(piece);
        assert(views(out@) =~= view_before.push(last));
    }
    out
}

/// Whether `pat` stands in `s` at position `i`.
pub open spec fn occurs_at(s: Seq<char>, pat: Seq<char>, i: int) -> bool {
    0 <= i && i + pat.len() <= s.len() && s.subrange(i, i + pat.len()) == pat
}

/// The first position, from `from` on, at which `pat` stands in `s`.
pub open spec fn find_from(s: Seq<char>, pat: Seq<char>, from: int) -> Option<int>
    decreases s.len() - from + 1,
{
    if from < 0 || from + pat.len() > s.len() {
        None
    } else if occurs_at(s, pat, from) {
        Some(from)
    } else {
        find_from(s, pat, from + 1)
    }
}

/// Whether `pat` stands somewhere in `s`.
pub open spec fn contains_text(s: Seq<char>, pat: Seq<char>) -> bool {
    find_from(s, pat, 0) is Some
}

/// A position found is one at which the pattern stands, and no earlier one is.
pub proof fn lemma_find_from(s: Seq<char>, pat: Seq<char>, from: int)
    requires
        0 <= from,
    ensures
        match find_from(s, pat, from) {
            Some(i) => from <= i && occurs_at(s, pat, i) && forall|j: int|
                from <= j < i ==> !occurs_at(s, pat, j),
            None => forall|j: int| from <= j ==> !occurs_at(s, pat, j),
        },
    decreases s.len() - from + 1,
{
    if from + pat.len() <= s.len() && !occurs_at(s, pat, from) {
        lemma_find_from(s, pat, from + 1);
    }
}

fn occurs(s: &Vec<char>, pat: &Vec<char>, at: usize) -> (r: bool)
    requires
        at <= s@.len(),
    ensures
        r == occurs_at(s@, pat@, at as int),
{
    if pat.len() > s.len() - at {
        return false;
    }
    let mut j: usize = 0;
    while j < pat.len()
        invariant
            j <= pat@.len(),
            at + pat@.len() <= s.len(),
            forall|k: int| 0 <= k < j ==> s@[at + k] == pat@[k],
        decreases pat@.len() - j,
    {
        if s[at + j] != pat[j] {
            assert(s@.subrange(at as int, at + pat@.len())[j as int] != pat@[j as int]);
            return false;
        }
        j += 1;
    }
    assert(s@.subrange(at as int, at + pat@.len()) =~= pat@);
    true
}

/// The first position from `from` on at which `pat` stands in `s`.
pub fn find(s: &Vec<char>, pat: &Vec<char>, from: usize) -> (r: Option<usize>)
    requires
        from <= s@.len(),
    ensures
        match r {
            Some(i) => find_from(s@, pat@, from as int) == Some(i as int),
            None => find_from(s@, pat@, from as int) is None,
        },
{
    let mut i: usize = from;
    while i <= s.len() && pat.len() <= s.len() - i
        invariant
            from <= i <= s@.len() + 1,
            find_from(s@, pat@, from as int) == find_from(s@, pat@, i as int),
        decreases s@.len() + 1 - i,
    {
        if occurs(s, pat, i) {
            return Some(i);
        }
        if i == s.len() {
            assert(s@.subrange(i as int, i as int) =~= pat@);
            return None;
        }
        i += 1;
    }
    None
}

/// Whether `pat` stands somewhere in `s`.
pub fn contains(s: &str, pat: &str) -> (r: bool)
    ensures
        r == contains_text(s@, pat@),
{
    find(&chars_of(s), &chars_of(pat), 0).is_some()
}

/// Whether the character `c` stands in `s`.
pub fn contains_char(s: &str, c: char) -> (r: bool)
    ensures
        r == s@.contains(c),
{
    let chars = chars_of(s);
    let mut i: usize = 0;
    while i < chars.len()
        invariant
            chars@ == s@,
            i <= chars@.len(),
            forall|j: int| 0 <= j < i ==> chars@[j] != c,
        decreases chars@.len() - i,
    {
        if chars[i] == c {
            assert(s@[i as int] == c);
            return true;
        }
        i += 1;
    }
    false
}

/// `s` up to and behind the first occurrence of `pat`.
pub open spec fn split_once_spec(s: Seq<char>, pat: Seq<char>) -> Option<(Seq<char>, Seq<char>)> {
    match find_from(s, pat, 0) {
        Some(i) => Some((s.take(i), s.skip(i + pat.len()))),
        None => None,
    }
}

/// `s` up to and behind the first occurrence of `pat`.
pub fn split_once(s: &str, pat: &str) -> (r: Option<(String, String)>)
    ensures
        match r {
            Some(p) => split_once_spec(s@, pat@) == Some((p.0@, p.1@)),
            None => split_once_spec(s@, pat@) is None,
        },
{
    let chars = chars_of(s);
    let pattern = chars_of(pat);
    match find(&chars, &pattern, 0) {
        Some(i) => {
            proof {
                lemma_find_from(s@, pat@, 0);
                assert(i + pat@.len() <= chars.len());
                assert(chars@.subrange(0, i as int) =~= s@.take(i as int));
                assert(chars@.subrange(i + pat@.len(), s@.len() as int) =~= s@.skip(
                    i + pat@.len(),
                ));
            }
            let head = text_of(&chars, 0, i);
            let tail = text_of(&chars, i + pattern.len(), chars.len());
            Some((head, tail))
        },
        None => None,
    }
}

/// How often `pat`, which is not empty, stands in `s` from `from` on, counting
/// from left to right without overlaps.
pub open spec fn count_from(s: Seq<char>, pat: Seq<char>, from: int) -> nat
    decreases s.len() - from,
{
    if pat.len() == 0 || from < 0 || from + pat.len() > s.len() {
        0
    } else if occurs_at(s, pat, from) {
        1 + count_from(s, pat, from + pat.len())
    } else {
        count_from(s, pat, from + 1)
    }
}

/// How often `pat` stands in `s`, without overlaps. The empty pattern stands
/// before each character and at the end.
pub open spec fn count_matches_spec(s: Seq<char>, pat: Seq<char>) -> nat {
    if pat.len() == 0 {
        s.len() + 1
    } else {
        count_from(s, pat, 0)
    }
}

/// `s` from `from` on, with `new` in place of each occurrence of the non-empty
/// `pat`, found from left to right.
pub open spec fn replace_from(s: Seq<char>, pat: Seq<char>, new: Seq<char>, from: int) -> Seq<char>
    decreases s.len() - from,
{
    if pat.len() == 0 || from < 0 || from + pat.len() > s.len() {
        s.skip(from)
    } else if occurs_at(s, pat, from) {
        new + replace_from(s, pat, new, from + pat.len())
    } else {
        seq![s[from]] + replace_from(s, pat, new, from + 1)
    }
}

/// `s` with `new` before each character and at the end.
pub open spec fn interleave(s: Seq<char>, new: Seq<char>) -> Seq<char>
    decreases s.len(),
{
    if s.len() == 0 {
        new
    } else {
        interleave(s.drop_last(), new).push(s.last()) + new
    }
}

/// `s` with `new` in place of each occurrence of `pat`.
pub open spec fn replace_spec(s: Seq<char>, pat: Seq<char>, new: Seq<char>) -> Seq<char> {
    if pat.len() == 0 {
        interleave(s, new)
    } else {
        replace_from(s, pat, new, 0)
    }
}

/// How often `pat` stands in `s`, without overlaps.
pub fn count_matches(s: &str, pat: &str) -> (r: usize)
    requires
        s@.len() < usize::MAX,
    ensures
        r == count_matches_spec(s@, pat@),
{
    let chars = chars_of(s);
    let pattern = chars_of(pat);
    if pattern.len() == 0 {
        return chars.len() + 1;
    }
    let mut total: usize = 0;
    let mut i: usize = 0;
    while i <= chars.len() && pattern.len() <= chars.len() - i
        invariant
            chars@ == s@,
            pattern@ == pat@,
            pat@.len() > 0,
            i <= chars@.len(),
            chars@.len() < usize::MAX,
            total <= i,
            total + count_from(s@, pat@, i as int) == count_from(s@, pat@, 0),
        decreases chars@.len() - i,
    {
        if occurs(&chars, &pattern, i) {
            total += 1;
            i += pattern.len();
        } else {
            i += 1;
        }
    }
    total
}

/// `s` with `new` in place of each occurrence of `pat`.
pub fn replace(s: &str, pat: &str, new: &str) -> (r: String)
    ensures
        r@ == replace_spec(s@, pat@, new@),
{
    let chars = chars_of(s);
    let pattern = chars_of(pat);
    let mut out = String::new();
    let mut i: usize = 0;
    if pattern.len() == 0 {
        out.push_str(new);
        assert(chars@.take(0) =~= Seq::<char>::empty());
        assert(out@ =~= interleave(chars@.take(0), new@));
        while i < chars.len()
            invariant
                chars@ == s@,
                i <= chars@.len(),
                out@ == interleave(chars@.take(i as int), new@),
            decreases chars@.len() - i,
        {
            out.push(chars[i]);
            out.push_str(new);
            i += 1;
            assert(chars@.take(i as int).drop_last() =~= chars@.take(i as int - 1));
        }
        assert(chars@.take(chars@.len() as int) =~= s@);
        return out;
    }
    assert(out@ + replace_from(s@, pat@, new@, 0) =~= replace_from(s@, pat@, new@, 0));
    while i <= chars.len() && pattern.len() <= chars.len() - i
        invariant
            chars@ == s@,
            pattern@ == pat@,
            pat@.len() > 0,
            i <= chars@.len(),
            out@ + replace_from(s@, pat@, new@, i as int) == replace_from(s@, pat@, new@, 0),
        decreases chars@.len() - i,
    {
        let ghost before = out@;
        let ghost at = i as int;
        if occurs(&chars, &pattern, i) {
            out.push_str(new);
            i += pattern.len();
            assert(out@ + replace_from(s@, pat@, new@, i as int) =~= before + (new@ + replace_from(
                s@,
                pat@,
                new@,
                i as int,
            )));
        } else {
            out.push(chars[i]);
            i += 1;
            assert(out@ + replace_from(s@, pat@, new@, i as int) =~= before + (seq![s@[at]]
                + replace_from(s@, pat@, new@, i as int)));
        }
    }
    let rest = text_of(&chars, i, chars.len());
    assert(rest@ =~= s@.skip(i as int));
    out.push_str(rest.as_str());
    out
}

/// Whether `a` comes before `b` in the order of their characters.
pub open spec fn precedes(a: Seq<char>, b: Seq<char>) -> bool
    decreases a.len(),
{
    if b.len() == 0 {
        false
    } else if a.len() == 0 {
        true
    } else if a[0] == b[0] {
        precedes(a.drop_first(), b.drop_first())
    } else {
        a[0] < b[0]
    }
}

/// No text comes before itself.
pub proof fn lemma_precedes_irreflexive(a: Seq<char>)
    ensures
        !precedes(a, a),
    decreases a.len(),
{
    if a.len() > 0 {
        lemma_precedes_irreflexive(a.drop_first());
    }
}

/// What comes before what comes before a text comes before it.
pub proof fn lemma_precedes_transitive(a: Seq<char>, b: Seq<char>, c: Seq<char>)
    requires
        precedes(a, b),
        precedes(b, c),
    ensures
        precedes(a, c),
    decreases a.len(),
{
    if a.len() > 0 && a[0] == b[0] && b[0] == c[0] {
        lemma_precedes_transitive(a.drop_first(), b.drop_first(), c.drop_first());
    }
}

/// Of two texts that differ one comes before the other.
pub proof fn lemma_precedes_total(a: Seq<char>, b: Seq<char>)
    ensures
        a == b || precedes(a, b) || precedes(b, a),
    decreases a.len(),
{
    if a.len() > 0 && b.len() > 0 && a[0] == b[0] {
        lemma_precedes_total(a.drop_first(), b.drop_first());
        if a.drop_first() == b.drop_first() {
            assert(a =~= seq![a[0]] + a.drop_first());
            assert(b =~= seq![b[0]] + b.drop_first());
        }
    } else if a.len() == 0 && b.len() == 0 {
        assert(a =~= b);
    }
}

/// Whether `a` comes before `b` in the order of their characters.
pub fn comes_before(a: &str, b: &str) -> (r: bool)
    ensures
        r == precedes(a@, b@),
{
    let left = chars_of(a);
    let right = chars_of(b);
    let mut i: usize = 0;
    assert(a@.skip(0) =~= a@);
    assert(b@.skip(0) =~= b@);
    while i < left.len() && i < right.len()
        invariant
            left@ == a@,
            right@ == b@,
            i <= left@.len(),
            i <= right@.len(),
            precedes(a@, b@) == precedes(a@.skip(i as int), b@.skip(i as int)),
        decreases left@.len() - i,
    {
        assert(a@.skip(i as int).drop_first() =~= a@.skip(i as int + 1));
        assert(b@.skip(i as int).drop_first() =~= b@.skip(i as int + 1));
        if left[i] != right[i] {
            return left[i] < right[i];
        }
        i += 1;
    }
    left.len() < right.len()
}

/// An optional text as the standard library's `Debug` writes it.
pub open spec fn debug_option(s: Option<Seq<char>>) -> Seq<char> {
    match s {
        Some(t) => "Some("@ + debug_view(t) + ")"@,
        None => "None"@,
    }
}

/// An optional text as the standard library's `Debug` writes it.
pub fn debug_option_text(s: &Option<String>) -> (r: String)
    ensures
        r@ == debug_option(s.deep_view()),
{
    match s {
        Some(t) => concat3("Some(", debug_text(t.as_str()).as_str(), ")"),
        None => "None".to_owned(),
    }
}

/// An optional number as the standard library's `Debug` writes it.
pub open spec fn debug_number(n: Option<u32>) -> Seq<char> {
    match n {
        Some(n) => "Some("@ + decimal(n as nat) + ")"@,
        None => "None"@,
    }
}

/// An optional number as the standard library's `Debug` writes it.
pub fn debug_number_text(n: Option<u32>) -> (r: String)
    ensures
        r@ == debug_number(n),
{
    match n {
        Some(n) => concat3("Some(", decimal_text(n as u64).as_str(), ")"),
        None => "None".to_owned(),
    }
}

/// Whether two optional texts are the same.
pub fn same_option(a: &Option<String>, b: &Option<String>) -> (r: bool)
    ensures
        r == (a.deep_view() == b.deep_view()),
{
    match (a, b) {
        (Some(x), Some(y)) => same(x.as_str(), y.as_str()),
        (None, None) => true,
        _ => false,
    }
}

/// A copy of an optional text.
pub fn copy_option(s: &Option<String>) -> (r: Option<String>)
    ensures
        r.deep_view() == s.deep_view(),
{
    match s {
        Some(t) => Some(t.clone()),
        None => None,
    }
}

/// What `Debug` of std writes for a text.
pub uninterp spec fn debug_view(s: Seq<char>) -> Seq<char>;

/// `s` in quotes and with escapes, as `Debug` for `str` of std writes it. The
/// escapes themselves are not stated.
#[verifier::external_body]
pub(crate) fn debug_text(s: &str) -> (r: String)
    ensures
        r@ == debug_view(s@),
{
    format!("{s:?}")
}

/// What `String::from_utf8_lossy` of std makes of bytes.
pub uninterp spec fn lossy_view(bytes: Seq<u8>) -> Seq<char>;

/// The text of `bytes` with replacement characters where they are no UTF-8, as
/// `String::from_utf8_lossy` of std makes it: valid UTF-8 is taken as it is.
#[verifier::external_body]
pub(crate) fn lossy_text(bytes: &[u8]) -> (r: String)
    ensures
        r@ == lossy_view(bytes@),
        valid_utf8(bytes@) ==> r@ == decode_utf8(bytes@),
{
    String::from_utf8_lossy(bytes).into_owned()
}

/// The text that `bytes` encode, if they are valid UTF-8, as `std::str::from_utf8`
/// decides it.
#[verifier::external_body]
pub(crate) fn utf8_text(bytes: &[u8]) -> (r: Option<String>)
    ensures
        match r {
            Some(s) => valid_utf8(bytes@) && s@ == decode_utf8(bytes@),
            None => !valid_utf8(bytes@),
        },
{
    std::str::from_utf8(bytes).ok().map(str::to_owned)
}

/// Number of bytes that a character takes in UTF-8.
pub open spec fn width(c: char) -> nat {
    encode_scalar(c as u32).len()
}

/// Number of bytes that a character takes in UTF-8.
pub fn char_width(c: char) -> (n: usize)
    ensures
        n == width(c),
        1 <= n <= 4,
{
    proof {
        char_is_scalar(c);
    }
    let code: u32 = c as u32;
    if code < 0x80 {
        1
    } else if code < 0x800 {
        2
    } else if code < 0x10000 {
        3
    } else {
        4
    }
}

/// One more character takes its own bytes more.
pub proof fn lemma_take_width(s: Seq<char>, i: int)
    requires
        0 <= i < s.len(),
    ensures
        utf8_len(s.take(i + 1)) == utf8_len(s.take(i)) + width(s[i]),
        width(s[i]) >= 1,
{
    char_is_scalar(s[i]);
    let one = seq![s[i]];
    assert(s.take(i + 1) =~= s.take(i) + one);
    lemma_encode_concat(s.take(i), one);
    assert(one.drop_first() =~= Seq::<char>::empty());
    assert(encode_utf8(one) =~= encode_scalar(one[0] as u32) + encode_utf8(one.drop_first()));
    assert(encode_utf8(Seq::<char>::empty()) =~= Seq::<u8>::empty());
}

/// From `i` characters on: the largest number of characters of `s` that take at most
/// `max` bytes.
pub open spec fn fit_from(s: Seq<char>, max: nat, i: int) -> int
    decreases s.len() - i,
{
    if 0 <= i < s.len() && utf8_len(s.take(i + 1)) <= max {
        fit_from(s, max, i + 1)
    } else {
        i
    }
}

/// The longest beginning of `s` that takes at most `max` bytes.
pub open spec fn fitting(s: Seq<char>, max: nat) -> Seq<char> {
    s.take(fit_from(s, max, 0))
}

/// What [`fitting`] cuts off: a beginning that fits, and with one character more it
/// would not.
pub proof fn lemma_fitting(s: Seq<char>, max: nat, i: int)
    requires
        0 <= i <= s.len(),
        utf8_len(s.take(i)) <= max,
    ensures
        i <= fit_from(s, max, i) <= s.len(),
        utf8_len(s.take(fit_from(s, max, i))) <= max,
        fit_from(s, max, i) < s.len() ==> utf8_len(s.take(fit_from(s, max, i) + 1)) > max,
    decreases s.len() - i,
{
    if i < s.len() && utf8_len(s.take(i + 1)) <= max {
        lemma_fitting(s, max, i + 1);
    }
}

/// The number of characters from `from` on that take at most `max` bytes.
pub fn fit(chars: &Vec<char>, from: usize, max: usize) -> (n: usize)
    requires
        from <= chars@.len(),
    ensures
        n == fit_from(chars@.skip(from as int), max as nat, 0),
        from + n <= chars@.len(),
{
    let ghost s = chars@.skip(from as int);
    let mut used: usize = 0;
    let mut n: usize = 0;
    assert(s.take(0) =~= Seq::<char>::empty());
    assert(encode_utf8(s.take(0)) =~= Seq::<u8>::empty());
    while n < chars.len() - from
        invariant
            from + n <= chars@.len(),
            s == chars@.skip(from as int),
            used == utf8_len(s.take(n as int)),
            used <= max,
            fit_from(s, max as nat, 0) == fit_from(s, max as nat, n as int),
        decreases chars@.len() - from - n,
    {
        let more: usize = char_width(chars[from + n]);
        proof {
            lemma_take_width(s, n as int);
            assert(s[n as int] == chars@[from + n]);
        }
        if more > max - used {
            return n;
        }
        used += more;
        n += 1;
    }
    n
}

/// A line without a carriage return at its end.
pub open spec fn without_return(line: Seq<char>) -> Seq<char> {
    if line.len() > 0 && line.last() == '\r' {
        line.drop_last()
    } else {
        line
    }
}

/// The lines of a text, without their line ends. A text that ends with a line end has no
/// further line, and a carriage return belongs to a line end only before a line feed.
pub open spec fn lines_spec(s: Seq<char>) -> Seq<Seq<char>> {
    let pieces = split_char(s, '\n');
    let ended = pieces.drop_last().map_values(|l: Seq<char>| without_return(l));
    if pieces.last().len() == 0 {
        ended
    } else {
        ended.push(pieces.last())
    }
}

/// A text has no more lines than characters.
pub proof fn lemma_lines_bounded(s: Seq<char>)
    ensures
        lines_spec(s).len() <= s.len(),
    decreases s.len(),
{
    lemma_split_nonempty(s, is_char('\n'));
    if split_char(s, '\n').len() == s.len() + 1 {
        lemma_full_split(s);
    }
}

proof fn lemma_full_split(s: Seq<char>)
    requires
        split_char(s, '\n').len() == s.len() + 1,
    ensures
        split_char(s, '\n').last().len() == 0,
    decreases s.len(),
{
    if s.len() > 0 {
        lemma_split_nonempty(s.drop_last(), is_char('\n'));
    }
}

/// The lines of a text, without their line ends.
pub fn lines(s: &str) -> (r: Vec<String>)
    ensures
        views(r@) == lines_spec(s@),
{
    let pieces = split(s, '\n');
    let ghost all = split_char(s@, '\n');
    proof {
        lemma_split_nonempty(s@, is_char('\n'));
        assert(views(pieces@).len() == pieces@.len());
    }
    let mut out: Vec<String> = Vec::new();
    let mut i: usize = 0;
    let last: usize = pieces.len() - 1;
    assert(views(out@) =~= all.take(0).map_values(|l: Seq<char>| without_return(l)));
    while i < last
        invariant
            i <= last,
            last + 1 == pieces@.len(),
            all == views(pieces@),
            views(out@) == all.take(i as int).map_values(|l: Seq<char>| without_return(l)),
        decreases last - i,
    {
        assert(all[i as int] == pieces@[i as int]@);
        let chars = chars_of(pieces[i].as_str());
        let line = if chars.len() > 0 && chars[chars.len() - 1] == '\r' {
            text_of(&chars, 0, chars.len() - 1)
        } else {
            pieces[i].clone()
        };
        assert(line@ == without_return(all[i as int])) by {
            if all[i as int].len() > 0 {
                assert(all[i as int].drop_last() =~= all[i as int].subrange(
                    0,
                    all[i as int].len() - 1,
                ));
            }
        }
        let ghost before = out@;
        out.push(line);
        i += 1;
        assert(views(out@) =~= views(before).push(line@));
        assert(all.take(i as int).map_values(|l: Seq<char>| without_return(l)) =~= all.take(
            i as int - 1,
        ).map_values(|l: Seq<char>| without_return(l)).push(without_return(all[i as int - 1])));
    }
    assert(all.take(last as int) =~= all.drop_last());
    assert(all.last() == pieces@[last as int]@);
    if byte_len(pieces[last].as_str()) > 0 {
        proof {
            lemma_utf8_len_zero(all.last());
        }
        let ghost before = out@;
        out.push(pieces[last].clone());
        assert(views(out@) =~= views(before).push(all.last()));
    } else {
        proof {
            lemma_utf8_len_zero(all.last());
        }
    }
    out
}

/// The lower case of a text, as `str::to_lowercase` of std makes it.
pub uninterp spec fn lowercase_view(s: Seq<char>) -> Seq<char>;

/// Calls `str::to_lowercase` of std, which goes by the text alone. Which characters it
/// maps to which is Unicode's and is not stated.
#[verifier::external_body]
pub(crate) fn lowercase(s: &str) -> (r: String)
    ensures
        r@ == lowercase_view(s@),
{
    s.to_lowercase()
}

/// A text with its ASCII letters in lower case.
pub open spec fn ascii_lowered(s: Seq<char>) -> Seq<char> {
    s.map_values(|c: char| ascii_lower_spec(c))
}

/// A text with its ASCII letters in lower case.
pub fn ascii_lower_text(s: &str) -> (r: String)
    ensures
        r@ == ascii_lowered(s@),
{
    let chars = chars_of(s);
    let mut out = String::new();
    let mut i: usize = 0;
    assert(ascii_lowered(chars@.take(0)) =~= Seq::<char>::empty());
    while i < chars.len()
        invariant
            i <= chars@.len(),
            out@ == ascii_lowered(chars@.take(i as int)),
        decreases chars@.len() - i,
    {
        out.push(ascii_lower(chars[i]));
        i += 1;
        assert(ascii_lowered(chars@.take(i as int)) =~= ascii_lowered(chars@.take(i - 1)).push(
            ascii_lower_spec(chars@[i - 1]),
        ));
    }
    assert(chars@.take(i as int) =~= chars@);
    out
}

} // verus!
