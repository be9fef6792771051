//! Sequences of characters and bytes: searching, splitting, trimming and
//! reading decimal numbers.
//!
//! Every executable function here is stated against a spec function over
//! `Seq`, so that the grammar of the wire format can be written once, in
//! specifications, and the code held to it.
use vstd::prelude::*;
use vstd::utf8::decode_utf8;
use vstd::utf8::encode_utf8;
use vstd::utf8::char_is_scalar;
use vstd::utf8::decode_utf8_encode_utf8;
use vstd::utf8::encode_scalar;
use vstd::utf8::encode_utf8_decode_utf8;
use vstd::utf8::has_width_1_encoding;
use vstd::utf8::last_continuation_byte;
use vstd::utf8::leading_byte_width_1;
use vstd::utf8::leading_byte_width_2;
use vstd::utf8::leading_byte_width_3;
use vstd::utf8::leading_byte_width_4;
use vstd::utf8::second_last_continuation_byte;
use vstd::utf8::third_last_continuation_byte;
use vstd::utf8::valid_utf8;

verus! {

/// The error of `core::str::from_utf8`, carried through and never read.
#[verifier::external_type_specification]
#[verifier::external_body]
pub struct ExUtf8Error(core::str::Utf8Error);

/// `core::str::from_utf8` accepts exactly the byte sequences that are
/// well-formed UTF-8, and then returns the text that they encode.
pub assume_specification[ core::str::from_utf8 ](v: &[u8]) -> (r: Result<
    &str,
    core::str::Utf8Error,
>)
    ensures
        r is Ok <==> valid_utf8(v@),
        r matches Ok(s) ==> s@ == decode_utf8(v@),
;

/// Index of the first occurrence of `x` in `s`, or `s.len()` when `s` does not
/// hold `x`.
pub open spec fn first_index<A>(s: Seq<A>, x: A) -> int
    decreases s.len(),
{
    if s.len() == 0 {
        0
    } else if s[0] == x {
        0
    } else {
        1 + first_index(s.drop_first(), x)
    }
}

/// `first_index` is in range, nothing before it equals `x`, and the element at
/// it (if any) does.
pub proof fn lemma_first_index<A>(s: Seq<A>, x: A)
    ensures
        0 <= first_index(s, x) <= s.len(),
        forall|j: int| 0 <= j < first_index(s, x) ==> s[j] != x,
        first_index(s, x) < s.len() ==> s[first_index(s, x)] == x,
        first_index(s, x) < s.len() <==> s.contains(x),
    decreases s.len(),
{
    if s.len() == 0 {
    } else if s[0] == x {
        assert(s.contains(x));
    } else {
        let t = s.drop_first();
        lemma_first_index(t, x);
        let k = first_index(t, x);
        assert forall|j: int| 0 <= j < 1 + k implies s[j] != x by {
            if j > 0 {
                assert(s[j] == t[j - 1]);
            }
        }
        if k < t.len() {
            assert(s[1 + k] == t[k]);
            assert(s.contains(x));
        }
        if s.contains(x) {
            let i = choose|i: int| 0 <= i < s.len() && s[i] == x;
            assert(t[i - 1] == x);
            assert(t.contains(x));
        }
    }
}

/// An index with the properties of `first_index` is `first_index`.
pub proof fn lemma_first_index_unique<A>(s: Seq<A>, x: A, i: int)
    requires
        0 <= i <= s.len(),
        forall|j: int| 0 <= j < i ==> s[j] != x,
        i < s.len() ==> s[i] == x,
    ensures
        first_index(s, x) == i,
{
    lemma_first_index(s, x);
    let k = first_index(s, x);
    if k < i {
        assert(s[k] != x);
    } else if i < k {
        assert(s[i] != x);
    }
}

/// `s` cut at the first `x`: what stands before it and what stands after it.
/// `None` when `s` does not hold `x`.
pub open spec fn split_once<A>(s: Seq<A>, x: A) -> Option<(Seq<A>, Seq<A>)> {
    let i = first_index(s, x);
    if i < s.len() {
        Some((s.take(i), s.skip(i + 1)))
    } else {
        None
    }
}

/// Cutting `a + [x] + b` at the first `x` gives `a` and `b` back when `a` holds
/// no `x`.
pub proof fn lemma_split_once_join<A>(a: Seq<A>, x: A, b: Seq<A>)
    requires
        !a.contains(x),
    ensures
        split_once(a + seq![x] + b, x) == Some((a, b)),
{
    let s = a + seq![x] + b;
    assert forall|j: int| 0 <= j < a.len() implies s[j] != x by {
        assert(s[j] == a[j]);
        assert(a.contains(a[j]));
    }
    assert(s[a.len() as int] == x);
    lemma_first_index_unique(s, x, a.len() as int);
    assert(s.take(a.len() as int) =~= a);
    assert(s.skip(a.len() as int + 1) =~= b);
}

/// What `split_once` returns joins back to `s`, and its first part holds no `x`.
pub proof fn lemma_split_once_parts<A>(s: Seq<A>, x: A)
    requires
        split_once(s, x) is Some,
    ensures
        ({
            let (a, b) = split_once(s, x)->0;
            &&& s == a + seq![x] + b
            &&& !a.contains(x)
        }),
{
    lemma_first_index(s, x);
    let i = first_index(s, x);
    let (a, b) = split_once(s, x)->0;
    assert(s =~= a + seq![x] + b);
    if a.contains(x) {
        let j = choose|j: int| 0 <= j < a.len() && a[j] == x;
        assert(s[j] == x);
    }
}

/// Whether `c` carries the Unicode property `White_Space`.
pub open spec fn is_space(c: char) -> bool {
    let n = c as u32;
    ||| 0x09 <= n <= 0x0D
    ||| n == 0x20
    ||| n == 0x85
    ||| n == 0xA0
    ||| n == 0x1680
    ||| 0x2000 <= n <= 0x200A
    ||| n == 0x2028
    ||| n == 0x2029
    ||| n == 0x202F
    ||| n == 0x205F
    ||| n == 0x3000
}

/// `s` without its leading white space.
pub open spec fn trim_start(s: Seq<char>) -> Seq<char>
    decreases s.len(),
{
    if s.len() > 0 && is_space(s[0]) {
        trim_start(s.drop_first())
    } else {
        s
    }
}

/// `s` without its trailing white space.
pub open spec fn trim_end(s: Seq<char>) -> Seq<char>
    decreases s.len(),
{
    if s.len() > 0 && is_space(s.last()) {
        trim_end(s.drop_last())
    } else {
        s
    }
}

/// `s` without leading and trailing white space.
pub open spec fn trim(s: Seq<char>) -> Seq<char> {
    trim_end(trim_start(s))
}

/// Whether `s` neither begins nor ends with white space.
pub open spec fn is_trimmed(s: Seq<char>) -> bool {
    s.len() > 0 ==> !is_space(s[0]) && !is_space(s.last())
}

/// Skipping leading white space does not change what `trim_start` gives.
pub proof fn lemma_trim_start_skip(s: Seq<char>, i: int)
    requires
        0 <= i <= s.len(),
        forall|j: int| 0 <= j < i ==> is_space(s[j]),
    ensures
        trim_start(s) == trim_start(s.skip(i)),
    decreases i,
{
    if i == 0 {
        assert(s.skip(0) =~= s);
    } else {
        assert(is_space(s[0]));
        let t = s.drop_first();
        assert forall|j: int| 0 <= j < i - 1 implies is_space(t[j]) by {
            assert(t[j] == s[j + 1]);
        }
        lemma_trim_start_skip(t, i - 1);
        assert(t.skip(i - 1) =~= s.skip(i));
    }
}

/// Dropping trailing white space does not change what `trim_end` gives.
pub proof fn lemma_trim_end_take(s: Seq<char>, i: int)
    requires
        0 <= i <= s.len(),
        forall|j: int| i <= j < s.len() ==> is_space(s[j]),
    ensures
        trim_end(s) == trim_end(s.take(i)),
    decreases s.len() - i,
{
    if i == s.len() {
        assert(s.take(i) =~= s);
    } else {
        assert(is_space(s.last()));
        let t = s.drop_last();
        lemma_trim_end_take(t, i);
        assert(t.take(i) =~= s.take(i));
    }
}

/// `trim` gives a trimmed sequence.
pub proof fn lemma_trim_is_trimmed(s: Seq<char>)
    ensures
        is_trimmed(trim(s)),
{
    lemma_trim_start_shape(s);
    lemma_trim_end_shape(trim_start(s));
}

/// `trim_start` gives a suffix of `s` that does not begin with white space.
pub proof fn lemma_trim_start_shape(s: Seq<char>)
    ensures
        trim_start(s).len() <= s.len(),
        trim_start(s) == s.skip(s.len() - trim_start(s).len()),
        trim_start(s).len() > 0 ==> !is_space(trim_start(s)[0]),
        forall|j: int| 0 <= j < s.len() - trim_start(s).len() ==> is_space(s[j]),
    decreases s.len(),
{
    if s.len() > 0 && is_space(s[0]) {
        let t = s.drop_first();
        lemma_trim_start_shape(t);
        let r = trim_start(t);
        assert(t.skip(t.len() - r.len()) =~= s.skip(s.len() - r.len()));
        assert forall|j: int| 0 <= j < s.len() - r.len() implies is_space(s[j]) by {
            if j > 0 {
                assert(s[j] == t[j - 1]);
            }
        }
    } else {
        assert(s.skip(0) =~= s);
    }
}

/// `trim_end` gives a prefix of `s` that does not end with white space.
pub proof fn lemma_trim_end_shape(s: Seq<char>)
    ensures
        trim_end(s).len() <= s.len(),
        trim_end(s) == s.take(trim_end(s).len() as int),
        trim_end(s).len() > 0 ==> !is_space(trim_end(s).last()),
        forall|j: int| trim_end(s).len() <= j < s.len() ==> is_space(s[j]),
    decreases s.len(),
{
    if s.len() > 0 && is_space(s.last()) {
        let t = s.drop_last();
        lemma_trim_end_shape(t);
        let r = trim_end(t);
        assert(t.take(r.len() as int) =~= s.take(r.len() as int));
        assert forall|j: int| r.len() <= j < s.len() implies is_space(s[j]) by {
            if j < t.len() {
                assert(s[j] == t[j]);
            }
        }
    } else {
        assert(s.take(s.len() as int) =~= s);
    }
}

/// A trimmed sequence is its own `trim`.
pub proof fn lemma_trim_of_trimmed(s: Seq<char>)
    requires
        is_trimmed(s),
    ensures
        trim(s) == s,
{
}

/// Whether `needle` occurs in `hay` as a run of consecutive elements.
pub open spec fn is_substring<A>(needle: Seq<A>, hay: Seq<A>) -> bool {
    exists|i: int| occurs_at(needle, hay, i)
}

/// Whether `needle` stands in `hay` at index `i`.
pub open spec fn occurs_at<A>(needle: Seq<A>, hay: Seq<A>, i: int) -> bool {
    0 <= i && i + needle.len() <= hay.len() && hay.subrange(i, i + needle.len()) == needle
}

/// Value of the decimal digit `c`, or `None` when `c` is no ASCII digit.
pub open spec fn digit_value(c: char) -> Option<nat> {
    let n = c as u32;
    if 0x30 <= n <= 0x39 {
        Some((n - 0x30) as nat)
    } else {
        None
    }
}

/// Whether every element of `s` is an ASCII digit.
pub open spec fn all_digits(s: Seq<char>) -> bool {
    forall|i: int| 0 <= i < s.len() ==> (#[trigger] digit_value(s[i])) is Some
}

/// The number that the digits of `s` write in base ten; 0 for the empty
/// sequence. Meaningful where `all_digits(s)`.
pub open spec fn decimal_value(s: Seq<char>) -> nat
    decreases s.len(),
{
    if s.len() == 0 {
        0
    } else {
        decimal_value(s.drop_last()) * 10 + match digit_value(s.last()) {
            Some(d) => d,
            None => 0,
        }
    }
}

/// `s` read as an unsigned decimal number of at most `max`: an optional `+`,
/// then at least one ASCII digit and nothing else. `None` for anything else,
/// and for a number above `max`.
pub open spec fn parse_unsigned(s: Seq<char>, max: nat) -> Option<nat> {
    let digits = if s.len() > 0 && s[0] == '+' {
        s.drop_first()
    } else {
        s
    };
    if digits.len() > 0 && all_digits(digits) && decimal_value(digits) <= max {
        Some(decimal_value(digits))
    } else {
        None
    }
}

/// The value of a sequence of digits is at least that of each of its prefixes.
pub proof fn lemma_decimal_value_prefix(s: Seq<char>, n: int)
    requires
        0 <= n <= s.len(),
    ensures
        decimal_value(s.take(n)) <= decimal_value(s),
    decreases s.len() - n,
{
    if n == s.len() {
        assert(s.take(n) =~= s);
    } else {
        lemma_decimal_value_prefix(s.drop_last(), n);
        assert(s.drop_last().take(n) =~= s.take(n));
    }
}

/// The encoding of a text in two parts is the encoding of the first part
/// followed by that of the second.
pub proof fn lemma_encode_concat(a: Seq<char>, b: Seq<char>)
    ensures
        encode_utf8(a + b) == encode_utf8(a) + encode_utf8(b),
    decreases a.len(),
{
    if a.len() == 0 {
        assert(a + b =~= b);
        assert(encode_utf8(a) + encode_utf8(b) =~= encode_utf8(b));
    } else {
        lemma_encode_concat(a.drop_first(), b);
        assert((a + b).drop_first() =~= a.drop_first() + b);
        assert(encode_utf8(a + b) =~= encode_utf8(a) + encode_utf8(b));
    }
}

/// The encoding of one character holds a byte below 128 only where the
/// character is that byte.
pub proof fn lemma_encode_scalar_ascii(c: char, x: u8)
    requires
        x < 0x80,
    ensures
        encode_scalar(c as u32).contains(x) <==> c as u32 == x as u32,
{
    let s = c as u32;
    char_is_scalar(c);
    let e = encode_scalar(s);
    if has_width_1_encoding(s) {
        assert(leading_byte_width_1(s) == s as u8) by (bit_vector)
            requires
                s <= 0x7f,
        ;
        assert(e[0] == s as u8);
        if s == x as u32 {
            assert(e[0] == x);
        }
    } else {
        let l2 = leading_byte_width_2(s);
        let l3 = leading_byte_width_3(s);
        let l4 = leading_byte_width_4(s);
        let c1 = last_continuation_byte(s);
        let c2 = second_last_continuation_byte(s);
        let c3 = third_last_continuation_byte(s);
        assert(l2 >= 0x80 && l3 >= 0x80 && l4 >= 0x80 && c1 >= 0x80 && c2 >= 0x80 && c3 >= 0x80)
            by (bit_vector)
            requires
                l2 == 0xC0 | ((s >> 6) & 0x1F) as u8,
                l3 == 0xE0 | ((s >> 12) & 0x0F) as u8,
                l4 == 0xF0 | ((s >> 18) & 0x7) as u8,
                c1 == 0x80 | (s & 0x3F) as u8,
                c2 == 0x80 | ((s >> 6) & 0x3F) as u8,
                c3 == 0x80 | ((s >> 12) & 0x3F) as u8,
        ;
        if e.contains(x) {
            let i = choose|i: int| 0 <= i < e.len() && e[i] == x;
            assert(e[i] >= 0x80);
        }
    }
}

/// The encoding of a text holds a byte below 128 exactly where the text holds
/// the character with that number.
pub proof fn lemma_encode_ascii(s: Seq<char>, x: u8)
    requires
        x < 0x80,
    ensures
        encode_utf8(s).contains(x) <==> s.contains(x as char),
    decreases s.len(),
{
    if s.len() > 0 {
        let head = encode_scalar(s[0] as u32);
        let rest = s.drop_first();
        let tail = encode_utf8(rest);
        lemma_encode_scalar_ascii(s[0], x);
        lemma_encode_ascii(rest, x);
        char_is_scalar(s[0]);
        if s[0] as u32 == x as u32 {
            vstd::utf8::char_u32_cast(s[0], x as u32);
        }
        assert(s[0] as u32 == x as u32 <==> s[0] == x as char);
        let all = encode_utf8(s);
        assert(all == head + tail);
        if all.contains(x) {
            let i = choose|i: int| 0 <= i < all.len() && all[i] == x;
            if i < head.len() {
                assert(head[i] == x);
                assert(head.contains(x));
                assert(s[0] == x as char);
            } else {
                assert(tail[i - head.len()] == x);
                assert(tail.contains(x));
                let j = choose|j: int| 0 <= j < rest.len() && rest[j] == x as char;
                assert(s[j + 1] == x as char);
            }
        }
        if s.contains(x as char) {
            let j = choose|j: int| 0 <= j < s.len() && s[j] == x as char;
            if j == 0 {
                let i = choose|i: int| 0 <= i < head.len() && head[i] == x;
                assert(all[i] == x);
            } else {
                assert(rest[j - 1] == x as char);
                assert(rest.contains(x as char));
                let i = choose|i: int| 0 <= i < tail.len() && tail[i] == x;
                assert(all[head.len() + i] == x);
            }
        }
    }
}

/// Well-formed UTF-8 holds a byte below 128 exactly where the text that it
/// encodes holds the character with that number.
pub proof fn lemma_decode_ascii(bytes: Seq<u8>, x: u8)
    requires
        valid_utf8(bytes),
        x < 0x80,
    ensures
        decode_utf8(bytes).contains(x as char) <==> bytes.contains(x),
{
    decode_utf8_encode_utf8(bytes);
    lemma_encode_ascii(decode_utf8(bytes), x);
}

/// The characters of `s`, one element for each.
pub fn to_chars(s: &str) -> (r: Vec<char>)
    ensures
        r@ == s@,
{
    let mut out: Vec<char> = Vec::new();
    let chars = s.chars();
    proof {
        vstd::string::axiom_spec_iter(s);
    }
    for c in it: chars
        invariant
            it.seq() == s@,
            out@ == s@.take(it.index()),
    {
        out.push(c);
    }
    out
}

/// Executable form of `is_space`.
pub fn char_is_space(c: char) -> (r: bool)
    ensures
        r == is_space(c),
{
    let n: u32 = c as u32;
    (0x09 <= n && n <= 0x0D) || n == 0x20 || n == 0x85 || n == 0xA0 || n == 0x1680 || (0x2000 <= n
        && n <= 0x200A) || n == 0x2028 || n == 0x2029 || n == 0x202F || n == 0x205F || n == 0x3000
}

/// Index in `v`, counted from `from`, of the first `c` at or after `from`; the
/// length of what follows `from` when there is none.
pub fn find_char(v: &Vec<char>, from: usize, c: char) -> (r: usize)
    requires
        from <= v.len(),
    ensures
        r == first_index(v@.skip(from as int), c),
        from + r <= v.len(),
{
    let mut i: usize = from;
    while i < v.len() && v[i] != c
        invariant
            from <= i <= v.len(),
            forall|j: int| from <= j < i ==> v@[j] != c,
        decreases v.len() - i,
    {
        i += 1;
    }
    proof {
        let t = v@.skip(from as int);
        assert forall|j: int| 0 <= j < i - from implies t[j] != c by {
            assert(t[j] == v@[from + j]);
        }
        lemma_first_index_unique(t, c, i - from);
    }
    i - from
}

/// Index in `v` of the first byte `b`; `v.len()` when there is none.
pub fn find_byte(v: &[u8], b: u8) -> (r: usize)
    ensures
        r == first_index(v@, b),
        r <= v.len(),
{
    let mut i: usize = 0;
    while i < v.len() && v[i] != b
        invariant
            i <= v.len(),
            forall|j: int| 0 <= j < i ==> v@[j] != b,
        decreases v.len() - i,
    {
        i += 1;
    }
    proof {
        lemma_first_index_unique(v@, b, i as int);
    }
    i
}

/// The bounds of `trim` within the range `from..to` of `v`.
pub fn trim_bounds(v: &Vec<char>, from: usize, to: usize) -> (r: (usize, usize))
    requires
        from <= to <= v.len(),
    ensures
        from <= r.0 <= r.1 <= to,
        v@.subrange(r.0 as int, r.1 as int) == trim(v@.subrange(from as int, to as int)),
{
    let ghost s = v@.subrange(from as int, to as int);
    let mut a: usize = from;
    while a < to && char_is_space(v[a])
        invariant
            from <= a <= to <= v.len(),
            forall|j: int| from <= j < a ==> is_space(v@[j]),
        decreases to - a,
    {
        a += 1;
    }
    let mut b: usize = to;
    while b > a && char_is_space(v[b - 1])
        invariant
            a <= b <= to <= v.len(),
            forall|j: int| b <= j < to ==> is_space(v@[j]),
        decreases b,
    {
        b -= 1;
    }
    proof {
        let m = s.skip(a - from);
        assert(m =~= v@.subrange(a as int, to as int));
        assert forall|j: int| 0 <= j < a - from implies is_space(s[j]) by {
            assert(s[j] == v@[from + j]);
        }
        lemma_trim_start_skip(s, a - from);
        assert(trim_start(s) == trim_start(m));
        assert(trim_start(m) == m) by {
            if m.len() > 0 {
                assert(m[0] == v@[a as int]);
            }
        }
        let e = m.take(b - a);
        assert(e =~= v@.subrange(a as int, b as int));
        assert forall|j: int| b - a <= j < m.len() implies is_space(m[j]) by {
            assert(m[j] == v@[a + j]);
        }
        lemma_trim_end_take(m, b - a);
        assert(trim_end(e) == e) by {
            if e.len() > 0 {
                assert(e.last() == v@[b - 1]);
            }
        }
    }
    (a, b)
}

/// Whether `needle` stands in `hay` at index `at`.
fn matches_at(needle: &Vec<char>, hay: &Vec<char>, at: usize) -> (r: bool)
    requires
        at + needle.len() <= hay.len(),
    ensures
        r == occurs_at(needle@, hay@, at as int),
{
    let mut k: usize = 0;
    while k < needle.len()
        invariant
            k <= needle.len(),
            at + needle.len() <= hay.len(),
            forall|j: int| 0 <= j < k ==> hay@[at + j] == needle@[j],
        decreases needle.len() - k,
    {
        if hay[at + k] != needle[k] {
            proof {
                let w = hay@.subrange(at as int, at + needle.len());
                assert(w[k as int] == hay@[at + k]);
            }
            return false;
        }
        k += 1;
    }
    proof {
        assert(hay@.subrange(at as int, at + needle.len()) =~= needle@);
    }
    true
}

/// Whether `needle` occurs in `hay`.
pub fn contains(hay: &Vec<char>, needle: &Vec<char>) -> (r: bool)
    ensures
        r == is_substring(needle@, hay@),
{
    if needle.len() > hay.len() {
        return false;
    }
    let last: usize = hay.len() - needle.len();
    let mut i: usize = 0;
    loop
        invariant
            last == hay.len() - needle.len(),
            i <= last,
            forall|j: int| 0 <= j < i ==> !occurs_at(needle@, hay@, j),
        decreases last - i,
    {
        if matches_at(needle, hay, i) {
            return true;
        }
        if i == last {
            return false;
        }
        i += 1;
    }
}

/// Whether `hay` begins with `prefix`.
pub fn starts_with(hay: &Vec<char>, prefix: &Vec<char>) -> (r: bool)
    ensures
        r == prefix@.is_prefix_of(hay@),
{
    if prefix.len() > hay.len() {
        return false;
    }
    let r = matches_at(prefix, hay, 0);
    proof {
        assert(hay@.subrange(0, prefix.len() as int) =~= hay@.take(prefix.len() as int));
        if prefix@.is_prefix_of(hay@) {
            assert(hay@.subrange(0, prefix.len() as int) =~= prefix@);
        }
    }
    r
}

/// Executable form of `parse_unsigned`, for a bound that fits in 64 bits.
pub fn read_unsigned(v: &Vec<char>, max: u64) -> (r: Option<u64>)
    ensures
        match r {
            Some(n) => parse_unsigned(v@, max as nat) == Some(n as nat),
            None => parse_unsigned(v@, max as nat) is None,
        },
{
    let start: usize = if v.len() > 0 && v[0] == '+' {
        1
    } else {
        0
    };
    let ghost digits = v@.skip(start as int);
    proof {
        if start == 1 {
            assert(digits =~= v@.drop_first());
        } else {
            assert(digits =~= v@);
        }
    }
    if start == v.len() {
        return None;
    }
    let mut acc: u64 = 0;
    let mut i: usize = start;
    while i < v.len()
        invariant
            start <= i <= v.len(),
            digits == v@.skip(start as int),
            digits == (if v@.len() > 0 && v@[0] == '+' {
                v@.drop_first()
            } else {
                v@
            }),
            all_digits(digits.take(i - start)),
            acc == decimal_value(digits.take(i - start)),
            acc <= max,
        decreases v.len() - i,
    {
        let n: u32 = v[i] as u32;
        let ghost before = digits.take(i - start);
        let ghost now = digits.take(i + 1 - start);
        proof {
            assert(now.drop_last() =~= before);
            assert(now.last() == v@[i as int]);
        }
        if n < 0x30 || n > 0x39 {
            proof {
                assert(digits[i - start] == v@[i as int]);
                assert(digit_value(digits[i - start]) is None);
            }
            return None;
        }
        let d: u64 = (n - 0x30) as u64;
        let next: u128 = (acc as u128) * 10 + (d as u128);
        if next > max as u128 {
            proof {
                assert(decimal_value(now) == next);
                lemma_decimal_value_prefix(digits, i + 1 - start);
            }
            return None;
        }
        acc = next as u64;
        proof {
            assert forall|j: int| 0 <= j < now.len() implies (#[trigger] digit_value(now[j])) is Some by {
                if j < before.len() {
                    assert(now[j] == before[j]);
                }
            }
        }
        i += 1;
    }
    proof {
        assert(digits.take(i - start) =~= digits);
    }
    Some(acc)
}

/// Whether `a` and `b` are the same text.
pub fn str_eq(a: &str, b: &str) -> (r: bool)
    ensures
        r == (a@ == b@),
{
    let x = a.as_bytes();
    let y = b.as_bytes();
    proof {
        encode_utf8_decode_utf8(a@);
        encode_utf8_decode_utf8(b@);
    }
    if x.len() != y.len() {
        return false;
    }
    let mut i: usize = 0;
    while i < x.len()
        invariant
            i <= x.len(),
            x.len() == y.len(),
            x@ == encode_utf8(a@),
            y@ == encode_utf8(b@),
            forall|j: int| 0 <= j < i ==> x@[j] == y@[j],
        decreases x.len() - i,
    {
        if x[i] != y[i] {
            return false;
        }
        i += 1;
    }
    proof {
        assert(x@ =~= y@);
    }
    true
}

/// The characters `from..to` of `s` as a `String`.
pub fn substring(s: &str, from: usize, to: usize) -> (r: String)
    requires
        from <= to <= s@.len(),
    ensures
        r@ == s@.subrange(from as int, to as int),
{
    s.substring_char(from, to).to_owned()
}

} // verus!
