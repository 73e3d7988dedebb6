//! Text as sequences of characters: the operations that the parsers and the
//! messages of this crate are written with.
use vstd::prelude::*;
use vstd::string::StrSliceExecFns;
use vstd::string::StringExecFns;

verus! {

/// `String::push` appends one character at the end of the string.
pub assume_specification[ String::push ](s: &mut String, c: char)
    ensures
        final(s)@ == old(s)@.push(c),
;

/// The elements of a sequence, each taken by its view.
pub open spec fn views<T: View>(s: Seq<T>) -> Seq<T::V> {
    s.map_values(|t: T| t@)
}

pub broadcast proof fn lemma_views_push<T: View>(s: Seq<T>, t: T)
    ensures
        #[trigger] views(s.push(t)) == views(s).push(t@),
{
    assert(views(s.push(t)) =~= views(s).push(t@));
}

pub broadcast proof fn lemma_views_add<T: View>(s: Seq<T>, t: Seq<T>)
    ensures
        #[trigger] views(s + t) == views(s) + views(t),
{
    assert(views(s + t) =~= views(s) + views(t));
}

pub broadcast proof fn lemma_views_empty<T: View>()
    ensures
        #[trigger] views(Seq::<T>::empty()) == Seq::<T::V>::empty(),
{
    assert(views(Seq::<T>::empty()) =~= Seq::<T::V>::empty());
}

pub broadcast group group_views {
    lemma_views_push,
    lemma_views_add,
    lemma_views_empty,
}

/// Unicode white space.
pub open spec fn is_space(c: char) -> bool {
    ||| 0x9 <= c as u32 <= 0xD
    ||| c as u32 == 0x20
    ||| c as u32 == 0x85
    ||| c as u32 == 0xA0
    ||| c as u32 == 0x1680
    ||| 0x2000 <= c as u32 <= 0x200A
    ||| c as u32 == 0x2028
    ||| c as u32 == 0x2029
    ||| c as u32 == 0x202F
    ||| c as u32 == 0x205F
    ||| c as u32 == 0x3000
}

/// Text without its leading white space.
pub open spec fn trim_start(s: Seq<char>) -> Seq<char>
    decreases s.len(),
{
    if s.len() > 0 && is_space(s[0]) {
        trim_start(s.drop_first())
    } else {
        s
    }
}

/// Text without its trailing white space.
pub open spec fn trim_end(s: Seq<char>) -> Seq<char>
    decreases s.len(),
{
    if s.len() > 0 && is_space(s.last()) {
        trim_end(s.drop_last())
    } else {
        s
    }
}

/// Text without its leading and trailing white space.
pub open spec fn trim(s: Seq<char>) -> Seq<char> {
    trim_end(trim_start(s))
}

pub open spec fn is_digit(c: char) -> bool {
    '0' <= c <= '9'
}

pub open spec fn digit_value(c: char) -> nat
    recommends
        is_digit(c),
{
    (c as u32 - '0' as u32) as nat
}

/// The number that a sequence of decimal digits denotes.
pub open spec fn digits_value(s: Seq<char>) -> nat
    decreases s.len(),
{
    if s.len() == 0 {
        0
    } else {
        10 * digits_value(s.drop_last()) + digit_value(s.last())
    }
}

/// A non-empty sequence of decimal digits.
pub open spec fn all_digits(s: Seq<char>) -> bool {
    s.len() > 0 && forall|i: int| 0 <= i < s.len() ==> is_digit(#[trigger] s[i])
}

/// The unsigned number that a text denotes: decimal digits, with an optional
/// leading plus sign.
pub open spec fn unsigned_value(s: Seq<char>) -> Option<nat> {
    let digits = if s.len() > 0 && s[0] == '+' {
        s.drop_first()
    } else {
        s
    };
    if all_digits(digits) {
        Some(digits_value(digits))
    } else {
        None
    }
}

/// The signed number that a text denotes: decimal digits, with an optional
/// leading sign.
pub open spec fn signed_value(s: Seq<char>) -> Option<int> {
    if s.len() > 0 && s[0] == '-' {
        if all_digits(s.drop_first()) {
            Some(-digits_value(s.drop_first()))
        } else {
            None
        }
    } else {
        match unsigned_value(s) {
            Some(n) => Some(n as int),
            None => None,
        }
    }
}

pub open spec fn hex_digit_value(c: char) -> Option<nat> {
    if '0' <= c <= '9' {
        Some((c as u32 - '0' as u32) as nat)
    } else if 'a' <= c <= 'f' {
        Some((c as u32 - 'a' as u32 + 10) as nat)
    } else if 'A' <= c <= 'F' {
        Some((c as u32 - 'A' as u32 + 10) as nat)
    } else {
        None
    }
}

/// The number that a sequence of hexadecimal digits denotes.
pub open spec fn hex_digits_value(s: Seq<char>) -> nat
    decreases s.len(),
{
    if s.len() == 0 {
        0
    } else {
        16 * hex_digits_value(s.drop_last()) + hex_digit_value(s.last())->0
    }
}

pub open spec fn all_hex_digits(s: Seq<char>) -> bool {
    s.len() > 0 && forall|i: int| 0 <= i < s.len() ==> hex_digit_value(#[trigger] s[i]) is Some
}

/// The unsigned number that a hexadecimal text denotes, with an optional
/// leading plus sign.
pub open spec fn hex_value(s: Seq<char>) -> Option<nat> {
    let digits = if s.len() > 0 && s[0] == '+' {
        s.drop_first()
    } else {
        s
    };
    if all_hex_digits(digits) {
        Some(hex_digits_value(digits))
    } else {
        None
    }
}

pub open spec fn digit_char(n: nat) -> char
    recommends
        n < 10,
{
    ('0' as u32 + n as u32) as char
}

/// The decimal notation of a number, without leading zeros.
pub open spec fn decimal(n: nat) -> Seq<char>
    decreases n,
{
    if n < 10 {
        seq![digit_char(n)]
    } else {
        decimal(n / 10).push(digit_char(n % 10))
    }
}

/// The pieces of a text between the occurrences of a separator.
pub open spec fn split(s: Seq<char>, separator: char) -> Seq<Seq<char>>
    decreases s.len(),
{
    if s.len() == 0 {
        seq![Seq::empty()]
    } else if s.last() == separator {
        split(s.drop_last(), separator).push(Seq::empty())
    } else {
        let front = split(s.drop_last(), separator);
        front.drop_last().push(front.last().push(s.last()))
    }
}

/// The pieces put together, with a separator between each two.
pub open spec fn join(parts: Seq<Seq<char>>, separator: Seq<char>) -> Seq<char>
    decreases parts.len(),
{
    if parts.len() == 0 {
        Seq::empty()
    } else if parts.len() == 1 {
        parts[0]
    } else {
        join(parts.drop_last(), separator) + separator + parts.last()
    }
}

/// Lexicographic order by code point.
pub open spec fn text_before(a: Seq<char>, b: Seq<char>) -> bool
    decreases a.len(),
{
    if b.len() == 0 {
        false
    } else if a.len() == 0 {
        true
    } else if a[0] != b[0] {
        a[0] < b[0]
    } else {
        text_before(a.drop_first(), b.drop_first())
    }
}

pub open spec fn starts_with(s: Seq<char>, prefix: Seq<char>) -> bool {
    prefix.len() <= s.len() && s.take(prefix.len() as int) == prefix
}

/// The characters of a string, as a vector.
pub fn chars_of(s: &str) -> (out: Vec<char>)
    ensures
        out@ == s@,
{
    let mut out: Vec<char> = Vec::new();
    for c in it: s.chars()
        invariant
            it.seq() == s@,
            out@ == s@.take(it.index() as int),
    {
        out.push(c);
    }
    out
}

/// The string of a slice of characters.
pub fn text_of(chars: &[char], from: usize, to: usize) -> (out: String)
    requires
        from <= to <= chars@.len(),
    ensures
        out@ == chars@.subrange(from as int, to as int),
{
    let mut out = String::new();
    let mut i: usize = from;
    while i < to
        invariant
            from <= i <= to <= chars@.len(),
            out@ == chars@.subrange(from as int, i as int),
        decreases to - i,
    {
        out.push(chars[i]);
        i += 1;
    }
    out
}

/// Whether two texts are equal.
pub fn same_text(a: &str, b: &str) -> (same: bool)
    ensures
        same == (a@ == b@),
{
    let x = chars_of(a);
    let y = chars_of(b);
    if x.len() != y.len() {
        return false;
    }
    let mut i: usize = 0;
    while i < x.len()
        invariant
            i <= x@.len(),
            x@.len() == y@.len(),
            x@ == a@,
            y@ == b@,
            forall|k: int| 0 <= k < i ==> x@[k] == y@[k],
        decreases x.len() - i,
    {
        if x[i] != y[i] {
            assert(a@[i as int] != b@[i as int]);
            return false;
        }
        i += 1;
    }
    assert(a@ =~= b@);
    true
}

/// Whether a character is white space.
pub fn char_is_space(c: char) -> (b: bool)
    ensures
        b == is_space(c),
{
    let n: u32 = c as u32;
    (0x9 <= n && n <= 0xD) || n == 0x20 || n == 0x85 || n == 0xA0 || n == 0x1680 || (0x2000 <= n && n
        <= 0x200A) || n == 0x2028 || n == 0x2029 || n == 0x202F || n == 0x205F || n == 0x3000
}

/// A text without its leading and trailing white space.
pub fn trim_text<'a>(s: &'a str) -> (out: &'a str)
    ensures
        out@ == trim(s@),
{
    let chars = chars_of(s);
    let n: usize = chars.len();
    let mut from: usize = 0;
    assert(s@.skip(0) =~= s@);
    while from < n && char_is_space(chars[from])
        invariant
            n == chars@.len(),
            from <= n,
            chars@ == s@,
            trim_start(s@) == trim_start(s@.skip(from as int)),
        decreases n - from,
    {
        assert(s@.skip(from as int).drop_first() =~= s@.skip(from + 1));
        from += 1;
    }
    assert(trim_start(s@) == s@.skip(from as int));
    let mut to: usize = n;
    while from < to && char_is_space(chars[to - 1])
        invariant
            n == chars@.len(),
            from <= to <= n,
            chars@ == s@,
            trim_end(s@.skip(from as int)) == trim_end(s@.subrange(from as int, to as int)),
        decreases to - from,
    {
        assert(s@.subrange(from as int, to as int).drop_last() =~= s@.subrange(
            from as int,
            to - 1,
        ));
        to -= 1;
    }
    s.substring_char(from, to)
}

/// The digits of `chars[from..]`, as a number that fits 64 bits.
fn parse_digits(chars: &Vec<char>, from: usize) -> (out: Option<u64>)
    requires
        from <= chars@.len(),
    ensures
        out is Some <==> all_digits(chars@.skip(from as int)) && digits_value(
            chars@.skip(from as int),
        ) <= u64::MAX,
        out is Some ==> out->0 == digits_value(chars@.skip(from as int)),
{
    let ghost digits = chars@.skip(from as int);
    if from == chars.len() {
        return None;
    }
    let mut value: u64 = 0;
    let mut overflow = false;
    let mut i: usize = from;
    assert(digits.take(0) =~= Seq::empty());
    while i < chars.len()
        invariant
            from <= i <= chars@.len(),
            digits == chars@.skip(from as int),
            forall|k: int| 0 <= k < i - from ==> is_digit(#[trigger] digits[k]),
            !overflow ==> value == digits_value(digits.take(i - from)),
            overflow ==> digits_value(digits.take(i - from)) > u64::MAX,
        decreases chars.len() - i,
    {
        let c = chars[i];
        assert(digits[i - from] == c);
        if !(c >= '0' && c <= '9') {
            assert(!is_digit(digits[i - from]));
            return None;
        }
        let d: u64 = (c as u32 - '0' as u32) as u64;
        assert(digits.take(i - from + 1).drop_last() =~= digits.take(i - from));
        if !overflow {
            match value.checked_mul(10) {
                Some(tens) => match tens.checked_add(d) {
                    Some(sum) => {
                        value = sum;
                    },
                    None => {
                        overflow = true;
                    },
                },
                None => {
                    overflow = true;
                },
            }
        }
        i += 1;
    }
    assert(digits.take(chars@.len() - from) =~= digits);
    if overflow {
        None
    } else {
        Some(value)
    }
}

/// The unsigned number that a text denotes, where it fits 64 bits.
pub fn parse_u64(s: &str) -> (out: Option<u64>)
    ensures
        out is Some <==> unsigned_value(s@) is Some && unsigned_value(s@)->0 <= u64::MAX,
        out is Some ==> unsigned_value(s@) == Some(out->0 as nat),
{
    let chars = chars_of(s);
    if chars.len() > 0 && chars[0] == '+' {
        assert(s@.skip(1) =~= s@.drop_first());
        parse_digits(&chars, 1)
    } else {
        assert(s@.skip(0) =~= s@);
        parse_digits(&chars, 0)
    }
}

/// The unsigned number that a text denotes, where it fits 32 bits.
pub fn parse_u32(s: &str) -> (out: Option<u32>)
    ensures
        out is Some <==> unsigned_value(s@) is Some && unsigned_value(s@)->0 <= u32::MAX,
        out is Some ==> unsigned_value(s@) == Some(out->0 as nat),
{
    match parse_u64(s) {
        Some(n) => if n <= 0xFFFF_FFFF {
            Some(n as u32)
        } else {
            None
        },
        None => None,
    }
}

/// The signed number that a text denotes, where it fits 64 bits.
pub fn parse_i64(s: &str) -> (out: Option<i64>)
    ensures
        out is Some <==> signed_value(s@) is Some && i64::MIN <= signed_value(s@)->0 <= i64::MAX,
        out is Some ==> signed_value(s@) == Some(out->0 as int),
{
    let chars = chars_of(s);
    if chars.len() > 0 && chars[0] == '-' {
        assert(s@.skip(1) =~= s@.drop_first());
        match parse_digits(&chars, 1) {
            Some(n) => {
                if n <= 0x7FFF_FFFF_FFFF_FFFF {
                    Some(-(n as i64))
                } else if n == 0x8000_0000_0000_0000 {
                    Some(i64::MIN)
                } else {
                    None
                }
            },
            None => None,
        }
    } else {
        match parse_u64(s) {
            Some(n) => if n <= 0x7FFF_FFFF_FFFF_FFFF {
                Some(n as i64)
            } else {
                None
            },
            None => None,
        }
    }
}

fn hex_digit(c: char) -> (out: Option<u32>)
    ensures
        out is Some <==> hex_digit_value(c) is Some,
        out is Some ==> hex_digit_value(c) == Some(out->0 as nat) && out->0 < 16,
{
    if c >= '0' && c <= '9' {
        Some(c as u32 - '0' as u32)
    } else if c >= 'a' && c <= 'f' {
        Some(c as u32 - 'a' as u32 + 10)
    } else if c >= 'A' && c <= 'F' {
        Some(c as u32 - 'A' as u32 + 10)
    } else {
        None
    }
}

/// The number that a hexadecimal text denotes, where it fits 32 bits.
pub fn parse_hex_u32(s: &str) -> (out: Option<u32>)
    ensures
        out is Some <==> hex_value(s@) is Some && hex_value(s@)->0 <= u32::MAX,
        out is Some ==> hex_value(s@) == Some(out->0 as nat),
{
    let chars = chars_of(s);
    let from: usize = if chars.len() > 0 && chars[0] == '+' {
        1
    } else {
        0
    };
    let ghost digits = s@.skip(from as int);
    assert(s@.skip(0) =~= s@);
    assert(s@.len() > 0 ==> s@.skip(1) =~= s@.drop_first());
    if from == chars.len() {
        return None;
    }
    let mut value: u32 = 0;
    let mut overflow = false;
    let mut i: usize = from;
    assert(digits.take(0) =~= Seq::empty());
    while i < chars.len()
        invariant
            from <= i <= chars@.len(),
            chars@ == s@,
            digits == s@.skip(from as int),
            hex_value(s@) is Some <==> all_hex_digits(digits),
            forall|k: int| 0 <= k < i - from ==> hex_digit_value(#[trigger] digits[k]) is Some,
            !overflow ==> value == hex_digits_value(digits.take(i - from)),
            overflow ==> hex_digits_value(digits.take(i - from)) > u32::MAX,
        decreases chars.len() - i,
    {
        assert(digits[i - from] == chars[i as int]);
        assert(digits.take(i - from + 1).drop_last() =~= digits.take(i - from));
        match hex_digit(chars[i]) {
            Some(d) => {
                if !overflow {
                    match value.checked_mul(16) {
                        Some(high) => match high.checked_add(d) {
                            Some(sum) => {
                                value = sum;
                            },
                            None => {
                                overflow = true;
                            },
                        },
                        None => {
                            overflow = true;
                        },
                    }
                }
            },
            None => {
                assert(hex_digit_value(digits[i - from]) is None);
                return None;
            },
        }
        i += 1;
    }
    assert(digits.take(chars@.len() - from) =~= digits);
    if overflow {
        None
    } else {
        Some(value)
    }
}

fn digit_to_char(n: u64) -> (c: char)
    requires
        n < 10,
    ensures
        c == digit_char(n as nat),
{
    match n {
        0 => '0',
        1 => '1',
        2 => '2',
        3 => '3',
        4 => '4',
        5 => '5',
        6 => '6',
        7 => '7',
        8 => '8',
        _ => '9',
    }
}

/// The decimal notation of a number.
pub fn decimal_text(n: u64) -> (out: String)
    ensures
        out@ == decimal(n as nat),
{
    decimal_text_wide(n as u128)
}

/// The decimal notation of a wide number.
pub fn decimal_text_wide(n: u128) -> (out: String)
    ensures
        out@ == decimal(n as nat),
    decreases n,
{
    if n < 10 {
        let mut out = String::new();
        out.push(digit_to_char(n as u64));
        assert(out@ =~= seq![digit_char(n as nat)]);
        out
    } else {
        let mut out = decimal_text_wide(n / 10);
        out.push(digit_to_char((n % 10) as u64));
        out
    }
}

/// Decimal notation consists of digits and denotes the number.
pub proof fn lemma_decimal(n: nat)
    ensures
        all_digits(decimal(n)),
        digits_value(decimal(n)) == n,
    decreases n,
{
    if n < 10 {
        assert(decimal(n).drop_last() =~= Seq::empty());
        assert(digits_value(decimal(n).drop_last()) == 0);
    } else {
        lemma_decimal(n / 10);
        assert(decimal(n).drop_last() =~= decimal(n / 10));
        assert forall|i: int| 0 <= i < decimal(n).len() implies is_digit(
            #[trigger] decimal(n)[i],
        ) by {
            if i < decimal(n / 10).len() {
                assert(decimal(n)[i] == decimal(n / 10)[i]);
            }
        }
    }
}

/// The pieces of a text between the occurrences of a separator.
pub fn split_text(s: &str, separator: char) -> (out: Vec<String>)
    ensures
        views(out@) == split(s@, separator),
{
    broadcast use group_views;

    let mut out: Vec<String> = Vec::new();
    let mut current = String::new();
    assert(Seq::<Seq<char>>::empty().push(Seq::empty()) =~= seq![Seq::<char>::empty()]);
    for c in it: s.chars()
        invariant
            it.seq() == s@,
            views(out@).push(current@) == split(s@.take(it.index() as int), separator),
    {
        let ghost i = it.index() as int;
        assert(s@.take(i + 1).drop_last() =~= s@.take(i));
        assert(s@.take(i + 1).last() == c);
        proof {
            let front = split(s@.take(i), separator);
            assert(front.drop_last() =~= views(out@));
            assert(front.last() == current@);
        }
        if c == separator {
            out.push(current);
            current = String::new();
        } else {
            current.push(c);
        }
    }
    assert(s@.take(s@.len() as int) =~= s@);
    out.push(current);
    out
}

/// The pieces put together, with a separator between each two.
pub fn join_text(parts: &Vec<String>, separator: &str) -> (out: String)
    ensures
        out@ == join(views(parts@), separator@),
{
    let mut out = String::new();
    let mut i: usize = 0;
    let ghost all = views(parts@);
    assert(all.take(0) =~= Seq::empty());
    while i < parts.len()
        invariant
            i <= parts@.len(),
            all == views(parts@),
            out@ == join(all.take(i as int), separator@),
        decreases parts.len() - i,
    {
        assert(all.take(i + 1).drop_last() =~= all.take(i as int));
        assert(all.take(i + 1).last() == parts@[i as int]@);
        if i > 0 {
            out.append(separator);
        } else {
            assert(Seq::<char>::empty() + parts@[i as int]@ =~= parts@[i as int]@);
        }
        out.append(parts[i].as_str());
        i += 1;
    }
    assert(all.take(all.len() as int) =~= all);
    out
}

/// Whether the first text comes before the second, by code point.
pub fn is_before(a: &str, b: &str) -> (before: bool)
    ensures
        before == text_before(a@, b@),
{
    let x = chars_of(a);
    let y = chars_of(b);
    let mut i: usize = 0;
    assert(a@.skip(0) =~= a@);
    assert(b@.skip(0) =~= b@);
    while i < x.len() && i < y.len() && x[i] == y[i]
        invariant
            i <= x@.len(),
            i <= y@.len(),
            x@ == a@,
            y@ == b@,
            text_before(a@, b@) == text_before(a@.skip(i as int), b@.skip(i as int)),
        decreases x.len() - i,
    {
        assert(a@.skip(i as int).drop_first() =~= a@.skip(i + 1));
        assert(b@.skip(i as int).drop_first() =~= b@.skip(i + 1));
        i += 1;
    }
    if i >= y.len() {
        false
    } else if i >= x.len() {
        true
    } else {
        x[i] < y[i]
    }
}

/// Text order is irreflexive.
pub proof fn lemma_before_irreflexive(a: Seq<char>)
    ensures
        !text_before(a, a),
    decreases a.len(),
{
    if a.len() > 0 {
        lemma_before_irreflexive(a.drop_first());
    }
}

/// Text order is transitive.
pub proof fn lemma_before_transitive(a: Seq<char>, b: Seq<char>, c: Seq<char>)
    requires
        text_before(a, b),
        text_before(b, c),
    ensures
        text_before(a, c),
    decreases a.len(),
{
    if a.len() > 0 && b.len() > 0 && c.len() > 0 && a[0] == b[0] && b[0] == c[0] {
        lemma_before_transitive(a.drop_first(), b.drop_first(), c.drop_first());
    }
}

/// Of two different texts one comes before the other.
pub proof fn lemma_before_total(a: Seq<char>, b: Seq<char>)
    ensures
        a == b || text_before(a, b) || text_before(b, a),
    decreases a.len(),
{
    if a.len() > 0 && b.len() > 0 && a[0] == b[0] {
        lemma_before_total(a.drop_first(), b.drop_first());
        if a.drop_first() == b.drop_first() {
            assert(a =~= seq![a[0]] + a.drop_first());
            assert(b =~= seq![b[0]] + b.drop_first());
        }
    } else if a.len() == 0 && b.len() == 0 {
        assert(a =~= b);
    }
}

/// Whether a text begins with another.
pub fn has_prefix(s: &str, prefix: &str) -> (b: bool)
    ensures
        b == starts_with(s@, prefix@),
{
    let n: usize = prefix.unicode_len();
    if n > s.unicode_len() {
        false
    } else {
        same_text(s.substring_char(0, n), prefix)
    }
}

/// The rest of a text behind a prefix, where it has that prefix.
pub fn without_prefix<'a>(s: &'a str, prefix: &str) -> (out: Option<&'a str>)
    ensures
        out is Some <==> starts_with(s@, prefix@),
        out is Some ==> out->0@ == s@.skip(prefix@.len() as int),
{
    if has_prefix(s, prefix) {
        let len: usize = s.unicode_len();
        assert(s@.skip(prefix@.len() as int) =~= s@.subrange(prefix@.len() as int, len as int));
        Some(s.substring_char(prefix.unicode_len(), len))
    } else {
        None
    }
}

/// Where a character first stands in a text; the length where it does not.
pub open spec fn find_char(s: Seq<char>, c: char) -> int
    decreases s.len(),
{
    if s.len() == 0 || s[0] == c {
        0
    } else {
        1 + find_char(s.drop_first(), c)
    }
}

/// A character is found where it stands and has not stood before.
pub proof fn lemma_find_char(s: Seq<char>, c: char, i: int)
    requires
        0 <= i <= s.len(),
        forall|k: int| 0 <= k < i ==> s[k] != c,
        i < s.len() ==> s[i] == c,
    ensures
        find_char(s, c) == i,
    decreases s.len(),
{
    if s.len() > 0 && s[0] != c {
        assert forall|k: int| 0 <= k < i - 1 implies s.drop_first()[k] != c by {
            assert(s[k + 1] != c);
        }
        lemma_find_char(s.drop_first(), c, i - 1);
    }
}

/// Where a character first stands in a text, counted in characters.
pub fn find_in(s: &str, c: char) -> (out: usize)
    ensures
        out == find_char(s@, c),
        out <= s@.len(),
        out < s@.len() ==> s@[out as int] == c,
        forall|k: int| 0 <= k < out ==> s@[k] != c,
{
    let chars = chars_of(s);
    let mut i: usize = 0;
    while i < chars.len() && chars[i] != c
        invariant
            i <= chars@.len(),
            chars@ == s@,
            forall|k: int| 0 <= k < i ==> s@[k] != c,
        decreases chars.len() - i,
    {
        i += 1;
    }
    proof {
        lemma_find_char(s@, c, i as int);
    }
    i
}

/// Whether a character stands in a text.
pub fn contains_char(s: &str, c: char) -> (found: bool)
    ensures
        found == s@.contains(c),
{
    let at: usize = find_in(s, c);
    if at < s.unicode_len() {
        assert(s@.contains(s@[at as int]));
        true
    } else {
        false
    }
}

/// A character with ASCII capitals made small.
pub open spec fn lower(c: char) -> char {
    if 'A' <= c <= 'Z' {
        (c as u32 + 32) as char
    } else {
        c
    }
}

/// Two texts that differ at most in the case of ASCII letters.
pub open spec fn same_ignoring_case(a: Seq<char>, b: Seq<char>) -> bool {
    a.len() == b.len() && forall|i: int| 0 <= i < a.len() ==> lower(#[trigger] a[i]) == lower(b[i])
}

fn same_letter(a: char, b: char) -> (same: bool)
    ensures
        same == (lower(a) == lower(b)),
{
    let x: u32 = if 'A' <= a && a <= 'Z' {
        a as u32 + 32
    } else {
        a as u32
    };
    let y: u32 = if 'A' <= b && b <= 'Z' {
        b as u32 + 32
    } else {
        b as u32
    };
    x == y
}

/// Whether two texts are equal but for the case of ASCII letters.
pub fn equal_ignoring_case(a: &str, b: &str) -> (same: bool)
    ensures
        same == same_ignoring_case(a@, b@),
{
    let x = chars_of(a);
    let y = chars_of(b);
    if x.len() != y.len() {
        return false;
    }
    let mut i: usize = 0;
    while i < x.len()
        invariant
            i <= x@.len(),
            x@.len() == y@.len(),
            x@ == a@,
            y@ == b@,
            forall|k: int| 0 <= k < i ==> lower(#[trigger] a@[k]) == lower(b@[k]),
        decreases x.len() - i,
    {
        if !same_letter(x[i], y[i]) {
            assert(lower(a@[i as int]) != lower(b@[i as int]));
            return false;
        }
        i += 1;
    }
    true
}

/// The non-empty pieces of a text between the occurrences of a separator.
pub open spec fn pieces(s: Seq<char>, separator: char) -> Seq<Seq<char>> {
    split(s, separator).filter(|piece: Seq<char>| piece.len() > 0)
}

/// The pieces between separators that are not empty.
pub fn nonempty_pieces(s: &str, separator: char) -> (out: Vec<String>)
    ensures
        views(out@) == pieces(s@, separator),
{
    broadcast use group_views;

    let parts = split_text(s, separator);
    let ghost all = views(parts@);
    let ghost keep = |piece: Seq<char>| piece.len() > 0;
    let mut out: Vec<String> = Vec::new();
    let mut i: usize = 0;
    proof {
        reveal(Seq::filter);
        assert(all.take(0).filter(keep) =~= Seq::empty());
    }
    while i < parts.len()
        invariant
            i <= parts@.len(),
            all == views(parts@),
            keep == (|piece: Seq<char>| piece.len() > 0),
            views(out@) == all.take(i as int).filter(keep),
        decreases parts.len() - i,
    {
        proof {
            assert(all[i as int] == parts@[i as int]@);
            assert(all.take(i + 1) =~= all.take(i as int).push(all[i as int]));
            all.take(i as int).lemma_filter_push(all[i as int], keep);
        }
        if !parts[i].as_str().is_empty() {
            out.push(parts[i].clone());
        }
        i += 1;
    }
    assert(all.take(all.len() as int) =~= all);
    out
}

/// An optional string by its contents.
pub open spec fn optional_text_view(v: Option<String>) -> Option<Seq<char>> {
    match v {
        Some(text) => Some(text@),
        None => None,
    }
}

/// A text put at its place among ascending ones, unless it is there.
pub open spec fn insert_text(s: Seq<Seq<char>>, x: Seq<char>) -> Seq<Seq<char>>
    decreases s.len(),
{
    if s.len() == 0 {
        seq![x]
    } else if s.last() == x {
        s
    } else if text_before(x, s.last()) {
        insert_text(s.drop_last(), x).push(s.last())
    } else {
        s.push(x)
    }
}

/// The distinct texts, in ascending order.
pub open spec fn text_set(s: Seq<Seq<char>>) -> Seq<Seq<char>>
    decreases s.len(),
{
    if s.len() == 0 {
        s
    } else {
        insert_text(text_set(s.drop_last()), s.last())
    }
}

proof fn lemma_insert_text_at(s: Seq<Seq<char>>, x: Seq<char>, i: int)
    requires
        0 <= i <= s.len(),
        forall|k: int| i <= k < s.len() ==> text_before(x, #[trigger] s[k]),
        i > 0 ==> !text_before(x, s[i - 1]),
    ensures
        i > 0 && s[i - 1] == x ==> insert_text(s, x) == s,
        i == 0 || s[i - 1] != x ==> insert_text(s, x) == s.insert(i, x),
    decreases s.len(),
{
    if i == s.len() {
        if s.len() == 0 {
            assert(s.insert(0, x) =~= seq![x]);
        } else {
            assert(s.insert(i, x) =~= s.push(x));
        }
    } else {
        assert(text_before(x, s[s.len() - 1]));
        lemma_before_irreflexive(x);
        lemma_insert_text_at(s.drop_last(), x, i);
        assert(s.insert(i, x) =~= s.drop_last().insert(i, x).push(s.last()));
        assert(s =~= s.drop_last().push(s.last()));
    }
}

/// The distinct texts of a vector, in ascending order.
pub fn distinct_texts(v: &Vec<String>) -> (out: Vec<String>)
    ensures
        views(out@) == text_set(views(v@)),
{
    broadcast use group_views;

    let ghost all = views(v@);
    let mut out: Vec<String> = Vec::new();
    let mut n: usize = 0;
    assert(all.take(0) =~= Seq::empty());
    while n < v.len()
        invariant
            n <= v@.len(),
            all == views(v@),
            views(out@) == text_set(all.take(n as int)),
        decreases v.len() - n,
    {
        assert(all.take(n + 1).drop_last() =~= all.take(n as int));
        assert(all.take(n + 1).last() == v@[n as int]@);
        let ghost sorted = views(out@);
        let ghost x = v@[n as int]@;
        let mut i: usize = out.len();
        while i > 0 && is_before(v[n].as_str(), out[i - 1].as_str())
            invariant
                n < v@.len(),
                i <= out@.len(),
                sorted == views(out@),
                x == v@[n as int]@,
                forall|k: int| i <= k < sorted.len() ==> text_before(x, #[trigger] sorted[k]),
            decreases i,
        {
            assert(sorted[i - 1] == out@[i - 1]@);
            i -= 1;
        }
        proof {
            if i > 0 {
                assert(sorted[i - 1] == out@[i - 1]@);
            }
            lemma_insert_text_at(sorted, x, i as int);
        }
        if i > 0 && same_text(v[n].as_str(), out[i - 1].as_str()) {
        } else {
            out.insert(i, v[n].clone());
            assert(views(out@) =~= sorted.insert(i as int, x));
        }
        n += 1;
    }
    assert(all.take(all.len() as int) =~= all);
    out
}

/// Ascending without repetition.
pub open spec fn texts_ascend(s: Seq<Seq<char>>) -> bool {
    forall|i: int, j: int| 0 <= i < j < s.len() ==> text_before(#[trigger] s[i], #[trigger] s[j])
}

/// An inserted text is there, in order, beside the others.
pub proof fn lemma_insert_text(s: Seq<Seq<char>>, x: Seq<char>)
    requires
        texts_ascend(s),
    ensures
        texts_ascend(insert_text(s, x)),
        forall|y: Seq<char>| #[trigger] insert_text(s, x).contains(y) <==> s.contains(y) || y == x,
    decreases s.len(),
{
    let r = insert_text(s, x);
    if s.len() == 0 {
        assert(r[0] == x);
        assert(r.contains(x));
    } else if s.last() == x {
        assert(s[s.len() - 1] == x);
    } else if text_before(x, s.last()) {
        let front = s.drop_last();
        assert forall|i: int, j: int| 0 <= i < j < front.len() implies text_before(
            #[trigger] front[i],
            #[trigger] front[j],
        ) by {
            assert(text_before(s[i], s[j]));
        }
        lemma_insert_text(front, x);
        let f = insert_text(front, x);
        assert forall|i: int, j: int| 0 <= i < j < r.len() implies text_before(
            #[trigger] r[i],
            #[trigger] r[j],
        ) by {
            if j == r.len() - 1 {
                assert(f.contains(f[i]));
                if f[i] != x {
                    let k = choose|k: int| 0 <= k < front.len() && front[k] == f[i];
                    assert(text_before(s[k], s[s.len() - 1]));
                }
            } else {
                assert(text_before(f[i], f[j]));
            }
        }
        assert forall|y: Seq<char>| #[trigger] r.contains(y) <==> s.contains(y) || y == x by {
            if r.contains(y) {
                let i = choose|i: int| 0 <= i < r.len() && r[i] == y;
                if i < f.len() {
                    assert(f[i] == y);
                    assert(f.contains(y));
                    if front.contains(y) {
                        let k = choose|k: int| 0 <= k < front.len() && front[k] == y;
                        assert(s[k] == y);
                    }
                } else {
                    assert(s[s.len() - 1] == y);
                }
            }
            if s.contains(y) || y == x {
                if y == s.last() {
                    assert(r[r.len() - 1] == y);
                } else {
                    if s.contains(y) {
                        let k = choose|k: int| 0 <= k < s.len() && s[k] == y;
                        assert(front[k] == y);
                    }
                    assert(f.contains(y));
                    let i = choose|i: int| 0 <= i < f.len() && f[i] == y;
                    assert(r[i] == y);
                }
            }
        }
    } else {
        lemma_before_total(x, s.last());
        assert forall|i: int, j: int| 0 <= i < j < r.len() implies text_before(
            #[trigger] r[i],
            #[trigger] r[j],
        ) by {
            if j == r.len() - 1 {
                if i < s.len() - 1 {
                    assert(text_before(s[i], s[s.len() - 1]));
                    lemma_before_transitive(s[i], s.last(), x);
                }
            } else {
                assert(text_before(s[i], s[j]));
            }
        }
        assert forall|y: Seq<char>| s.contains(y) || y == x implies #[trigger] r.contains(y) by {
            if s.contains(y) {
                let k = choose|k: int| 0 <= k < s.len() && s[k] == y;
                assert(r[k] == y);
            } else {
                assert(r[s.len() as int] == y);
            }
        }
    }
}

/// The set of texts ascends and holds the same texts.
pub proof fn lemma_text_set(s: Seq<Seq<char>>)
    ensures
        texts_ascend(text_set(s)),
        forall|y: Seq<char>| #[trigger] text_set(s).contains(y) <==> s.contains(y),
    decreases s.len(),
{
    if s.len() > 0 {
        let front = s.drop_last();
        lemma_text_set(front);
        lemma_insert_text(text_set(front), s.last());
        assert forall|y: Seq<char>| #[trigger] text_set(s).contains(y) <==> s.contains(y) by {
            if s.contains(y) {
                let k = choose|k: int| 0 <= k < s.len() && s[k] == y;
                if k < front.len() {
                    assert(front[k] == y);
                }
            }
            if front.contains(y) {
                let k = choose|k: int| 0 <= k < front.len() && front[k] == y;
                assert(s[k] == y);
            }
            if y == s.last() {
                assert(s[s.len() - 1] == y);
            }
        }
    }
}

/// Whether a text is among some.
pub fn contains_text(v: &Vec<String>, x: &str) -> (found: bool)
    ensures
        found == views(v@).contains(x@),
{
    let ghost all = views(v@);
    let mut i: usize = 0;
    while i < v.len()
        invariant
            i <= v@.len(),
            all == views(v@),
            forall|k: int| 0 <= k < i ==> #[trigger] all[k] != x@,
        decreases v.len() - i,
    {
        assert(all[i as int] == v@[i as int]@);
        if same_text(v[i].as_str(), x) {
            assert(all[i as int] == x@);
            return true;
        }
        i += 1;
    }
    false
}

/// A text without the separator is one piece.
pub proof fn lemma_split_no_separator(s: Seq<char>, separator: char)
    requires
        forall|i: int| 0 <= i < s.len() ==> s[i] != separator,
    ensures
        split(s, separator) == seq![s],
    decreases s.len(),
{
    if s.len() > 0 {
        lemma_split_no_separator(s.drop_last(), separator);
        assert(s.drop_last().push(s.last()) =~= s);
        assert(split(s, separator) =~= seq![s]);
    } else {
        assert(s =~= Seq::empty());
    }
}

proof fn lemma_split_append(a: Seq<char>, b: Seq<char>, separator: char)
    requires
        forall|i: int| 0 <= i < b.len() ==> b[i] != separator,
    ensures
        split(a.push(separator) + b, separator) == split(a, separator).push(b),
    decreases b.len(),
{
    let s = a.push(separator) + b;
    if b.len() == 0 {
        assert(s =~= a.push(separator));
        assert(s.drop_last() =~= a);
        assert(b =~= Seq::empty());
    } else {
        lemma_split_append(a, b.drop_last(), separator);
        assert(s.drop_last() =~= a.push(separator) + b.drop_last());
        assert(s.last() == b.last());
        assert(b.drop_last().push(b.last()) =~= b);
        assert(split(a, separator).push(b.drop_last()).drop_last() =~= split(a, separator));
    }
}

/// Joining pieces that hold no separator and splitting again gives them back.
pub proof fn lemma_split_join(parts: Seq<Seq<char>>, separator: char)
    requires
        parts.len() > 0,
        forall|k: int, i: int|
            0 <= k < parts.len() && 0 <= i < parts[k].len() ==> #[trigger] parts[k][i] != separator,
    ensures
        split(join(parts, seq![separator]), separator) == parts,
    decreases parts.len(),
{
    if parts.len() == 1 {
        lemma_split_no_separator(parts[0], separator);
        assert(parts =~= seq![parts[0]]);
    } else {
        let front = parts.drop_last();
        assert forall|k: int, i: int|
            0 <= k < front.len() && 0 <= i < front[k].len() implies #[trigger] front[k][i]
            != separator by {
            assert(parts[k][i] != separator);
        }
        lemma_split_join(front, separator);
        let last = parts.last();
        assert forall|i: int| 0 <= i < last.len() implies last[i] != separator by {
            assert(parts[parts.len() - 1][i] != separator);
        }
        lemma_split_append(join(front, seq![separator]), last, separator);
        assert(join(parts, seq![separator]) =~= join(front, seq![separator]).push(separator) + last);
        assert(front.push(last) =~= parts);
    }
}

/// A line without the carriage return at its end.
pub open spec fn without_return(s: Seq<char>) -> Seq<char> {
    if s.len() > 0 && s.last() == '\r' {
        s.drop_last()
    } else {
        s
    }
}

/// The lines of a text. A line ends with a line feed, before which one
/// carriage return does not count; the last one may end with the text.
pub open spec fn lines(s: Seq<char>) -> Seq<Seq<char>> {
    let pieces = split(s, '\n');
    let ended = pieces.drop_last().map_values(|piece: Seq<char>| without_return(piece));
    if pieces.last().len() == 0 {
        ended
    } else {
        ended.push(pieces.last())
    }
}

/// There is always a piece.
pub proof fn lemma_split_not_empty(s: Seq<char>, separator: char)
    ensures
        split(s, separator).len() > 0,
    decreases s.len(),
{
    if s.len() > 0 {
        lemma_split_not_empty(s.drop_last(), separator);
    }
}

fn drop_return(s: &str) -> (out: String)
    ensures
        out@ == without_return(s@),
{
    let n: usize = s.unicode_len();
    if n > 0 && s.get_char(n - 1) == '\r' {
        let out = s.substring_char(0, n - 1).to_owned();
        assert(out@ =~= s@.drop_last());
        out
    } else {
        s.to_owned()
    }
}

/// The lines of a text.
pub fn lines_of(s: &str) -> (out: Vec<String>)
    ensures
        views(out@) == lines(s@),
{
    broadcast use group_views;

    let pieces = split_text(s, '\n');
    let ghost all = split(s@, '\n');
    let ghost trimmed = |piece: Seq<char>| without_return(piece);
    proof {
        lemma_split_not_empty(s@, '\n');
    }
    assert(all.len() == pieces@.len());
    let mut out: Vec<String> = Vec::new();
    let mut i: usize = 0;
    assert(all.take(0).map_values(trimmed) =~= Seq::empty());
    while i < pieces.len() - 1
        invariant
            0 < pieces@.len(),
            i <= pieces@.len() - 1,
            all == views(pieces@),
            trimmed == (|piece: Seq<char>| without_return(piece)),
            views(out@) == all.take(i as int).map_values(trimmed),
        decreases pieces.len() - i,
    {
        assert(all.take(i + 1).map_values(trimmed) =~= all.take(i as int).map_values(trimmed).push(
            trimmed(pieces@[i as int]@),
        ));
        out.push(drop_return(pieces[i].as_str()));
        i += 1;
    }
    assert(all.take(all.len() - 1) =~= all.drop_last());
    assert(all.last() == pieces@[i as int]@);
    if pieces[i].as_str().unicode_len() > 0 {
        out.push(pieces[i].clone());
    }
    out
}

/// A text made of lines that each end with a line feed has these lines.
pub proof fn lemma_lines_of_joined(parts: Seq<Seq<char>>)
    requires
        parts.len() > 0,
        forall|k: int, i: int|
            0 <= k < parts.len() && 0 <= i < parts[k].len() ==> !is_control(
                #[trigger] parts[k][i],
            ),
    ensures
        lines(join(parts, seq!['\n']).push('\n')) == parts,
{
    let text = join(parts, seq!['\n']).push('\n');
    assert forall|k: int, i: int| 0 <= k < parts.len() && 0 <= i < parts[k].len() implies
        #[trigger] parts[k][i] != '\n' by {
        assert(!is_control(parts[k][i]));
    }
    lemma_split_join(parts, '\n');
    assert(text.drop_last() =~= join(parts, seq!['\n']));
    assert(split(text, '\n').drop_last() =~= parts);
    assert forall|k: int| 0 <= k < parts.len() implies without_return(#[trigger] parts[k])
        == parts[k] by {
        if parts[k].len() > 0 {
            assert(!is_control(parts[k][parts[k].len() - 1]));
        }
    }
    assert(parts.map_values(|piece: Seq<char>| without_return(piece)) =~= parts);
}

/// A Unicode control character.
pub open spec fn is_control(c: char) -> bool {
    c <= '\u{1F}' || '\u{7F}' <= c <= '\u{9F}'
}

pub open spec fn has_control(s: Seq<char>) -> bool {
    exists|i: int| 0 <= i < s.len() && is_control(#[trigger] s[i])
}

/// Whether a text holds a control character.
pub fn contains_control(s: &str) -> (found: bool)
    ensures
        found == has_control(s@),
{
    for c in it: s.chars()
        invariant
            it.seq() == s@,
            forall|i: int| 0 <= i < it.index() ==> !is_control(#[trigger] s@[i]),
    {
        if c <= '\u{1F}' || ('\u{7F}' <= c && c <= '\u{9F}') {
            assert(is_control(s@[it.index() as int]));
            return true;
        }
    }
    false
}

/// A whole number in decimal.
pub open spec fn signed_decimal(n: int) -> Seq<char> {
    if n < 0 {
        "-"@ + decimal((-n) as nat)
    } else {
        decimal(n as nat)
    }
}

/// A whole number in decimal.
pub fn signed_decimal_text(n: i64) -> (out: String)
    ensures
        out@ == signed_decimal(n as int),
{
    if n < 0 {
        let wide: i128 = n as i128;
        let size: u64 = (-wide) as u64;
        "-".to_owned().concat(decimal_text(size).as_str())
    } else {
        decimal_text(n as u64)
    }
}

/// A list of numbers in square brackets.
pub open spec fn number_list(numbers: Seq<u32>) -> Seq<char> {
    "["@ + join(numbers.map_values(|n: u32| decimal(n as nat)), ", "@) + "]"@
}

/// A list of numbers in square brackets.
pub fn number_list_text(numbers: &Vec<u32>) -> (out: String)
    ensures
        out@ == number_list(numbers@),
{
    broadcast use group_views;

    let ghost shown = |n: u32| decimal(n as nat);
    let mut parts: Vec<String> = Vec::new();
    let mut i: usize = 0;
    assert(numbers@.take(0).map_values(shown) =~= Seq::empty());
    while i < numbers.len()
        invariant
            i <= numbers@.len(),
            shown == (|n: u32| decimal(n as nat)),
            views(parts@) == numbers@.take(i as int).map_values(shown),
        decreases numbers.len() - i,
    {
        assert(numbers@.take(i + 1).map_values(shown) =~= numbers@.take(i as int).map_values(
            shown,
        ).push(shown(numbers@[i as int])));
        parts.push(decimal_text(numbers[i] as u64));
        i += 1;
    }
    assert(numbers@.take(numbers@.len() as int) =~= numbers@);
    "[".to_owned().concat(join_text(&parts, ", ").as_str()).concat("]")
}

/// The words of a text: its pieces between white space.
pub open spec fn words(s: Seq<char>) -> Seq<Seq<char>>
    decreases s.len(),
{
    if s.len() == 0 {
        Seq::empty()
    } else {
        let front = words(s.drop_last());
        if is_space(s.last()) {
            front
        } else if s.len() > 1 && !is_space(s[s.len() - 2]) {
            front.drop_last().push(front.last().push(s.last()))
        } else {
            front.push(seq![s.last()])
        }
    }
}

/// The words of a text.
pub fn words_of(s: &str) -> (out: Vec<String>)
    ensures
        views(out@) == words(s@),
{
    broadcast use group_views;

    let mut out: Vec<String> = Vec::new();
    let mut current = String::new();
    let mut open = false;
    assert(s@.take(0) =~= Seq::empty());
    for c in it: s.chars()
        invariant
            it.seq() == s@,
            open == (it.index() > 0 && !is_space(s@[it.index() - 1])),
            open ==> views(out@).push(current@) == words(s@.take(it.index() as int)),
            !open ==> views(out@) == words(s@.take(it.index() as int)) && current@.len() == 0,
    {
        let ghost i = it.index() as int;
        proof {
            assert(s@.take(i + 1).drop_last() =~= s@.take(i));
            assert(s@.take(i + 1).last() == c);
            if i > 0 {
                assert(s@.take(i + 1)[i - 1] == s@[i - 1]);
            }
            if open {
                assert(words(s@.take(i)).drop_last() =~= views(out@));
                assert(words(s@.take(i)).last() == current@);
            } else {
                assert(current@.push(c) =~= seq![c]);
            }
        }
        if char_is_space(c) {
            if open {
                out.push(current);
                current = String::new();
                open = false;
            }
        } else {
            current.push(c);
            open = true;
        }
    }
    assert(s@.take(s@.len() as int) =~= s@);
    if open {
        out.push(current);
    }
    out
}

} // verus!
