//! Text measured in UTF-8 bytes, and the small string operations the rest of the library is
//! written with.
//!
//! Contracts speak of a text through its characters (`text@`) and of its size through
//! [`utf8_len`], the number of bytes of its UTF-8 encoding.

use vstd::prelude::*;
use vstd::utf8::*;

verus! {

/// The number of bytes in the UTF-8 encoding of `text`.
pub open spec fn utf8_len(text: Seq<char>) -> nat {
    encode_utf8(text).len()
}

/// The number of bytes in the UTF-8 encoding of one character.
pub open spec fn char_width(c: char) -> nat {
    if (c as u32) < 0x80 {
        1
    } else if (c as u32) < 0x800 {
        2
    } else if (c as u32) < 0x10000 {
        3
    } else {
        4
    }
}

/// Appends one character.
///
/// Trusted: `String::push` appends the given character to the end of the string.
pub assume_specification[ String::push ](s: &mut String, c: char)
    ensures
        final(s)@ == old(s)@.push(c),
;

/// Encoding a concatenation concatenates the encodings.
pub proof fn encode_concat(a: Seq<char>, b: Seq<char>)
    ensures
        encode_utf8(a + b) == encode_utf8(a) + encode_utf8(b),
        utf8_len(a + b) == utf8_len(a) + utf8_len(b),
    decreases a.len(),
{
    if a.len() == 0 {
        assert(a + b =~= b);
        assert(encode_utf8(a) =~= Seq::<u8>::empty());
        assert(encode_utf8(a) + encode_utf8(b) =~= encode_utf8(b));
    } else {
        let ab = a + b;
        assert(ab.drop_first() =~= a.drop_first() + b);
        assert(ab[0] == a[0]);
        encode_concat(a.drop_first(), b);
        let head = encode_scalar(a[0] as u32);
        let tail = encode_utf8(a.drop_first());
        assert(encode_utf8(a) =~= head + tail);
        assert(encode_utf8(ab) =~= head + encode_utf8(ab.drop_first()));
        assert(head + (tail + encode_utf8(b)) =~= (head + tail) + encode_utf8(b));
    }
}

/// The encoding of one character.
pub proof fn encode_one(c: char)
    ensures
        encode_utf8(seq![c]) == encode_scalar(c as u32),
        encode_scalar(c as u32).len() == char_width(c),
        utf8_len(seq![c]) == char_width(c),
{
    let one = seq![c];
    assert(one.drop_first() =~= Seq::<char>::empty());
    assert(encode_utf8(one.drop_first()) =~= Seq::<u8>::empty());
    assert(encode_utf8(one) =~= encode_scalar(c as u32));
}

/// Appending a character appends its encoding.
pub proof fn encode_push(a: Seq<char>, c: char)
    ensures
        encode_utf8(a.push(c)) == encode_utf8(a) + encode_scalar(c as u32),
        utf8_len(a.push(c)) == utf8_len(a) + char_width(c),
{
    assert(a.push(c) =~= a + seq![c]);
    encode_concat(a, seq![c]);
    encode_one(c);
}

/// The empty text encodes to no bytes.
pub proof fn encode_empty()
    ensures
        encode_utf8(Seq::<char>::empty()) == Seq::<u8>::empty(),
        utf8_len(Seq::<char>::empty()) == 0,
{
    assert(encode_utf8(Seq::<char>::empty()) =~= Seq::<u8>::empty());
}

/// Two texts with the same encoding are the same text.
pub proof fn encode_injective(a: Seq<char>, b: Seq<char>)
    requires
        encode_utf8(a) == encode_utf8(b),
    ensures
        a == b,
{
    encode_utf8_decode_utf8(a);
    encode_utf8_decode_utf8(b);
}

/// A text is at least as long in bytes as in characters, and at most four times as long.
pub proof fn utf8_len_bounds(a: Seq<char>)
    ensures
        a.len() <= utf8_len(a) <= 4 * a.len(),
    decreases a.len(),
{
    if a.len() == 0 {
        assert(a =~= Seq::<char>::empty());
        encode_empty();
    } else {
        let front = a.drop_last();
        utf8_len_bounds(front);
        assert(a =~= front.push(a.last()));
        encode_push(front, a.last());
    }
}

/// A prefix is no longer in bytes than the whole.
pub proof fn utf8_len_prefix(a: Seq<char>, n: int)
    requires
        0 <= n <= a.len(),
    ensures
        utf8_len(a.take(n)) <= utf8_len(a),
        utf8_len(a) == utf8_len(a.take(n)) + utf8_len(a.skip(n)),
{
    assert(a =~= a.take(n) + a.skip(n));
    encode_concat(a.take(n), a.skip(n));
}

/// The number of bytes in the UTF-8 encoding of `text`.
pub fn byte_len(text: &str) -> (r: usize)
    ensures
        r == utf8_len(text@),
{
    text.as_bytes().len()
}

/// The number of bytes in the UTF-8 encoding of `c`.
pub fn char_byte_len(c: char) -> (r: usize)
    ensures
        r == char_width(c),
        1 <= r <= 4,
{
    let code: u32 = c as u32;
    if code < 0x80 {
        1
    } else if code < 0x800 {
        2
    } else if code < 0x10000 {
        3
    } else {
        4
    }
}

/// The characters of `text`, in order.
pub fn chars_of(text: &str) -> (r: Vec<char>)
    ensures
        r@ == text@,
{
    let mut out: Vec<char> = Vec::new();
    for c in it: text.chars()
        invariant
            it.seq() == text@,
            out@ == text@.take(it.index() as int),
    {
        proof {
            assert(text@.take(it.index() + 1) =~= text@.take(it.index() as int).push(c));
        }
        out.push(c);
    }
    proof {
        assert(text@.take(text@.len() as int) =~= text@);
    }
    out
}

/// The text made of the characters `chars[from..to]`.
pub fn text_of(chars: &Vec<char>, from: usize, to: usize) -> (r: String)
    requires
        from <= to <= chars@.len(),
    ensures
        r@ == chars@.subrange(from as int, to as int),
{
    let mut out = String::new();
    let mut i: usize = from;
    while i < to
        invariant
            from <= i <= to <= chars@.len(),
            out@ == chars@.subrange(from as int, i as int),
        decreases to - i,
    {
        proof {
            assert(chars@.subrange(from as int, i + 1) =~= chars@.subrange(from as int, i as int).push(
                chars@[i as int],
            ));
        }
        out.push(chars[i]);
        i += 1;
    }
    out
}

/// Whether two texts are equal.
pub fn same_text(a: &str, b: &str) -> (r: bool)
    ensures
        r == (a@ == b@),
{
    let x = a.as_bytes();
    let y = b.as_bytes();
    if x.len() != y.len() {
        return false;
    }
    let mut i: usize = 0;
    while i < x.len()
        invariant
            i <= x@.len(),
            x@.len() == y@.len(),
            x@ == encode_utf8(a@),
            y@ == encode_utf8(b@),
            forall|j: int| 0 <= j < i ==> x@[j] == y@[j],
        decreases x@.len() - i,
    {
        if x[i] != y[i] {
            return false;
        }
        i += 1;
    }
    proof {
        assert(x@ =~= y@);
        encode_injective(a@, b@);
    }
    true
}

/// Whether `text` begins with `prefix`.
pub open spec fn begins_with(text: Seq<char>, prefix: Seq<char>) -> bool {
    prefix.len() <= text.len() && text.take(prefix.len() as int) == prefix
}

/// Byte-wise lexicographic order, the order of Rust strings.
pub open spec fn bytes_less(a: Seq<u8>, b: Seq<u8>) -> bool
    decreases a.len(),
{
    if b.len() == 0 {
        false
    } else if a.len() == 0 {
        true
    } else if a[0] != b[0] {
        a[0] < b[0]
    } else {
        bytes_less(a.drop_first(), b.drop_first())
    }
}

/// Whether text `a` sorts strictly before text `b`.
pub open spec fn text_less(a: Seq<char>, b: Seq<char>) -> bool {
    bytes_less(encode_utf8(a), encode_utf8(b))
}

/// The byte order is irreflexive.
pub proof fn bytes_less_irreflexive(a: Seq<u8>)
    ensures
        !bytes_less(a, a),
    decreases a.len(),
{
    if a.len() > 0 {
        bytes_less_irreflexive(a.drop_first());
    }
}

/// The byte order is transitive.
pub proof fn bytes_less_transitive(a: Seq<u8>, b: Seq<u8>, c: Seq<u8>)
    requires
        bytes_less(a, b),
        bytes_less(b, c),
    ensures
        bytes_less(a, c),
    decreases a.len(),
{
    if a.len() > 0 && b.len() > 0 && c.len() > 0 && a[0] == b[0] && b[0] == c[0] {
        bytes_less_transitive(a.drop_first(), b.drop_first(), c.drop_first());
    }
}

/// The byte order is total.
pub proof fn bytes_less_total(a: Seq<u8>, b: Seq<u8>)
    ensures
        bytes_less(a, b) || bytes_less(b, a) || a == b,
    decreases a.len(),
{
    if a.len() > 0 && b.len() > 0 && a[0] == b[0] {
        bytes_less_total(a.drop_first(), b.drop_first());
        if a.drop_first() == b.drop_first() {
            assert(a =~= seq![a[0]] + a.drop_first());
            assert(b =~= seq![b[0]] + b.drop_first());
        }
    } else if a.len() == 0 && b.len() == 0 {
        assert(a =~= b);
    }
}

/// Of two different texts exactly one sorts before the other.
pub proof fn text_less_total(a: Seq<char>, b: Seq<char>)
    ensures
        a != b ==> text_less(a, b) || text_less(b, a),
        !(text_less(a, b) && text_less(b, a)),
{
    bytes_less_total(encode_utf8(a), encode_utf8(b));
    if a != b && encode_utf8(a) == encode_utf8(b) {
        encode_injective(a, b);
    }
    if text_less(a, b) && text_less(b, a) {
        bytes_less_transitive(encode_utf8(a), encode_utf8(b), encode_utf8(a));
        bytes_less_irreflexive(encode_utf8(a));
    }
}

proof fn same_front_less(front: Seq<u8>, a: Seq<u8>, b: Seq<u8>)
    ensures
        bytes_less(front + a, front + b) == bytes_less(a, b),
    decreases front.len(),
{
    if front.len() == 0 {
        assert(front + a =~= a);
        assert(front + b =~= b);
    } else {
        assert((front + a).drop_first() =~= front.drop_first() + a);
        assert((front + b).drop_first() =~= front.drop_first() + b);
        same_front_less(front.drop_first(), a, b);
    }
}

/// Two texts that first differ in two ASCII characters sort as these do.
pub proof fn ascii_less(a: Seq<char>, b: Seq<char>, n: int)
    requires
        0 <= n < a.len(),
        n < b.len(),
        forall|i: int| 0 <= i < n ==> a[i] == b[i],
        (a[n] as u32) < 128,
        (b[n] as u32) < 128,
        (a[n] as u32) < (b[n] as u32),
    ensures
        text_less(a, b),
    decreases n,
{
    let head = encode_scalar(a[0] as u32);
    assert(encode_utf8(a) =~= head + encode_utf8(a.drop_first()));
    assert(encode_utf8(b) =~= encode_scalar(b[0] as u32) + encode_utf8(b.drop_first()));
    if n == 0 {
        encode_one(a[0]);
        encode_one(b[0]);
        let (x, y) = (a[0] as u32, b[0] as u32);
        assert(x < y && y < 128 ==> ((x & 0x7F) as u8) < ((y & 0x7F) as u8)) by (bit_vector);
        assert(encode_scalar(x)[0] == (x & 0x7F) as u8);
        assert(encode_scalar(y)[0] == (y & 0x7F) as u8);
    } else {
        ascii_less(a.drop_first(), b.drop_first(), n - 1);
        same_front_less(head, encode_utf8(a.drop_first()), encode_utf8(b.drop_first()));
    }
}

/// Whether text `a` sorts strictly before text `b`.
pub fn str_less(a: &str, b: &str) -> (r: bool)
    ensures
        r == text_less(a@, b@),
{
    let x = a.as_bytes();
    let y = b.as_bytes();
    let mut i: usize = 0;
    proof {
        assert(x@.skip(0) =~= x@);
        assert(y@.skip(0) =~= y@);
    }
    while i < x.len() && i < y.len()
        invariant
            i <= x@.len(),
            i <= y@.len(),
            x@ == encode_utf8(a@),
            y@ == encode_utf8(b@),
            bytes_less(x@, y@) == bytes_less(x@.skip(i as int), y@.skip(i as int)),
        decreases x@.len() - i,
    {
        proof {
            assert(x@.skip(i as int).drop_first() =~= x@.skip(i + 1));
            assert(y@.skip(i as int).drop_first() =~= y@.skip(i + 1));
        }
        if x[i] != y[i] {
            return x[i] < y[i];
        }
        i += 1;
    }
    i < y.len()
}

/// The number of characters at the start of `text` that fit in `max` bytes.
pub open spec fn chars_within(text: Seq<char>, max: int) -> nat
    decreases text.len(),
{
    if text.len() == 0 || char_width(text[0]) > max {
        0
    } else {
        1 + chars_within(text.drop_first(), max - char_width(text[0]))
    }
}

/// The smallest number of characters at the start of `text` that take at least `min` bytes, or
/// all of them.
pub open spec fn chars_reaching(text: Seq<char>, min: int) -> nat
    decreases text.len(),
{
    if text.len() == 0 || min <= 0 {
        0
    } else {
        1 + chars_reaching(text.drop_first(), min - char_width(text[0]))
    }
}

/// The longest start of `text` that takes at most `max` bytes.
pub open spec fn prefix_within(text: Seq<char>, max: int) -> Seq<char> {
    text.take(chars_within(text, max) as int)
}

/// Bytes of the first character and the rest.
pub proof fn utf8_len_first(text: Seq<char>)
    requires
        text.len() > 0,
    ensures
        utf8_len(text) == char_width(text[0]) + utf8_len(text.drop_first()),
{
    encode_one(text[0]);
    assert(text =~= seq![text[0]] + text.drop_first());
    encode_concat(seq![text[0]], text.drop_first());
}

/// The longest start within a limit obeys it, and the next character would exceed it.
pub proof fn prefix_within_longest(text: Seq<char>, max: int)
    requires
        max >= 0,
    ensures
        chars_within(text, max) <= text.len(),
        utf8_len(prefix_within(text, max)) <= max,
        chars_within(text, max) < text.len() ==> utf8_len(prefix_within(text, max)) + char_width(
            text[chars_within(text, max) as int],
        ) > max,
        utf8_len(text) <= max ==> prefix_within(text, max) == text,
    decreases text.len(),
{
    if text.len() == 0 {
        encode_empty();
        assert(prefix_within(text, max) =~= Seq::<char>::empty());
        assert(prefix_within(text, max) =~= text);
    } else {
        utf8_len_first(text);
        if char_width(text[0]) > max {
            encode_empty();
            assert(prefix_within(text, max) =~= Seq::<char>::empty());
        } else {
            let rest = text.drop_first();
            let left = max - char_width(text[0]);
            prefix_within_longest(rest, left);
            let whole = prefix_within(text, max);
            assert(whole.drop_first() =~= prefix_within(rest, left));
            utf8_len_first(whole);
            if utf8_len(text) <= max {
                assert(whole =~= text);
            }
        }
    }
}

/// The first character boundary at or behind a byte position.
pub proof fn chars_reaching_first(text: Seq<char>, min: int)
    ensures
        chars_reaching(text, min) <= text.len(),
        min <= utf8_len(text) ==> utf8_len(text.take(chars_reaching(text, min) as int)) >= min,
        forall|n: int|
            0 <= n < chars_reaching(text, min) ==> utf8_len(#[trigger] text.take(n)) < min,
        chars_reaching(text, min) < text.len() && min <= utf8_len(text) ==> utf8_len(
            text.take(chars_reaching(text, min) as int),
        ) < utf8_len(text),
    decreases text.len(),
{
    let count = chars_reaching(text, min) as int;
    if text.len() == 0 || min <= 0 {
        encode_empty();
        assert(text.take(0) =~= Seq::<char>::empty());
        if text.len() > 0 {
            utf8_len_bounds(text);
        }
    } else {
        let rest = text.drop_first();
        let less = min - char_width(text[0]);
        chars_reaching_first(rest, less);
        utf8_len_first(text);
        assert(text.take(count).drop_first() =~= rest.take(count - 1));
        utf8_len_first(text.take(count));
        assert forall|n: int| 0 <= n < count implies utf8_len(#[trigger] text.take(n)) < min by {
            if n == 0 {
                encode_empty();
                assert(text.take(0) =~= Seq::<char>::empty());
            } else {
                assert(text.take(n).drop_first() =~= rest.take(n - 1));
                utf8_len_first(text.take(n));
            }
        }
    }
}

/// The number of characters at the start of `chars` that fit in `max` bytes, and their bytes.
pub fn count_within(chars: &Vec<char>, max: usize) -> (r: usize)
    ensures
        r == chars_within(chars@, max as int),
        r <= chars@.len(),
{
    let mut i: usize = 0;
    let mut left: usize = max;
    proof {
        assert(chars@.skip(0) =~= chars@);
    }
    while i < chars.len()
        invariant
            i <= chars@.len(),
            chars_within(chars@, max as int) == i + chars_within(chars@.skip(i as int), left as int),
        decreases chars@.len() - i,
    {
        let width: usize = char_byte_len(chars[i]);
        if width > left {
            return i;
        }
        proof {
            assert(chars@.skip(i as int).drop_first() =~= chars@.skip(i + 1));
        }
        left = left - width;
        i += 1;
    }
    i
}

/// The smallest number of characters at the start of `chars` that take at least `min` bytes.
pub fn count_reaching(chars: &Vec<char>, min: usize) -> (r: usize)
    ensures
        r == chars_reaching(chars@, min as int),
        r <= chars@.len(),
{
    let mut i: usize = 0;
    let mut left: usize = min;
    proof {
        assert(chars@.skip(0) =~= chars@);
    }
    while i < chars.len() && left > 0
        invariant
            i <= chars@.len(),
            chars_reaching(chars@, min as int) == i + chars_reaching(
                chars@.skip(i as int),
                left as int,
            ),
        decreases chars@.len() - i,
    {
        let width: usize = char_byte_len(chars[i]);
        proof {
            assert(chars@.skip(i as int).drop_first() =~= chars@.skip(i + 1));
            assert(chars_reaching(chars@.skip(i + 1), 0) == 0);
            assert(left <= width ==> chars_reaching(chars@.skip(i + 1), left - width) == 0);
        }
        left = if width >= left {
            0
        } else {
            left - width
        };
        i += 1;
    }
    i
}

/// The longest start of `text` that takes at most `max` bytes.
pub fn take_bytes_at_char_boundary(text: &str, max: usize) -> (r: String)
    ensures
        r@ == prefix_within(text@, max as int),
{
    let chars = chars_of(text);
    let count: usize = count_within(&chars, max);
    proof {
        assert(chars@.subrange(0, count as int) =~= chars@.take(count as int));
    }
    text_of(&chars, 0, count)
}

/// The first position at or behind `from` where `pattern` stands in `text`.
pub open spec fn position(text: Seq<char>, pattern: Seq<char>, from: int) -> Option<int>
    decreases text.len() + 1 - from,
{
    if from < 0 || from + pattern.len() > text.len() {
        None
    } else if text.subrange(from, from + pattern.len()) == pattern {
        Some(from)
    } else {
        position(text, pattern, from + 1)
    }
}

/// Whether `pattern` stands anywhere in `text`.
pub open spec fn contains_text(text: Seq<char>, pattern: Seq<char>) -> bool {
    position(text, pattern, 0) is Some
}

/// A position that was found is the first one.
pub proof fn position_is_first(text: Seq<char>, pattern: Seq<char>, from: int)
    requires
        from >= 0,
    ensures
        match position(text, pattern, from) {
            Some(at) => from <= at && at + pattern.len() <= text.len() && text.subrange(
                at,
                at + pattern.len(),
            ) == pattern && forall|i: int|
                from <= i < at ==> #[trigger] text.subrange(i, i + pattern.len()) != pattern,
            None => forall|i: int|
                from <= i && i + pattern.len() <= text.len() ==> #[trigger] text.subrange(
                    i,
                    i + pattern.len(),
                ) != pattern,
        },
    decreases text.len() + 1 - from,
{
    if from + pattern.len() <= text.len() && text.subrange(from, from + pattern.len()) != pattern {
        position_is_first(text, pattern, from + 1);
    }
}

/// The first position at or behind `from` where `pattern` stands in `text`.
pub fn find_chars(text: &Vec<char>, pattern: &Vec<char>, from: usize) -> (r: Option<usize>)
    ensures
        match r {
            Some(at) => position(text@, pattern@, from as int) == Some(at as int),
            None => position(text@, pattern@, from as int) is None,
        },
{
    if pattern.len() > text.len() {
        return None;
    }
    let total: usize = text.len();
    let last: usize = total - pattern.len();
    let mut i: usize = from;
    while i <= last
        invariant
            total == text@.len(),
            last + pattern@.len() == total,
            position(text@, pattern@, from as int) == position(text@, pattern@, i as int),
        decreases last + 1 - i,
    {
        let mut k: usize = 0;
        while k < pattern.len() && text[i + k] == pattern[k]
            invariant
                k <= pattern@.len(),
                i <= last,
                total == text@.len(),
                last + pattern@.len() == total,
                forall|j: int| 0 <= j < k ==> text@[i + j] == pattern@[j],
            decreases pattern@.len() - k,
        {
            k += 1;
        }
        if k == pattern.len() {
            proof {
                assert(text@.subrange(i as int, i + pattern@.len()) =~= pattern@);
            }
            return Some(i);
        }
        proof {
            assert(text@.subrange(i as int, i + pattern@.len())[k as int] != pattern@[k as int]);
        }
        if i == last {
            proof {
                assert(position(text@, pattern@, i + 1) is None);
            }
            return None;
        }
        i += 1;
    }
    None
}

/// Whether `pattern` stands anywhere in `text`.
pub fn text_contains(text: &str, pattern: &str) -> (r: bool)
    ensures
        r == contains_text(text@, pattern@),
{
    find_chars(&chars_of(text), &chars_of(pattern), 0).is_some()
}

/// A line without the carriage return in front of its line end.
pub open spec fn without_return(line: Seq<char>) -> Seq<char> {
    if line.len() > 0 && line.last() == '\r' {
        line.drop_last()
    } else {
        line
    }
}

/// The lines of a text, without their line ends; a last line without one counts.
pub open spec fn text_lines(text: Seq<char>) -> Seq<Seq<char>>
    decreases text.len(),
{
    if text.len() == 0 {
        seq![]
    } else {
        match position(text, seq!['\n'], 0) {
            None => seq![text],
            Some(at) => if 0 <= at < text.len() {
                seq![without_return(text.take(at))] + text_lines(text.skip(at + 1))
            } else {
                seq![text]
            },
        }
    }
}

/// The characters `chars[from..to]`.
pub fn part_of(chars: &Vec<char>, from: usize, to: usize) -> (r: Vec<char>)
    requires
        from <= to <= chars@.len(),
    ensures
        r@ == chars@.subrange(from as int, to as int),
{
    let mut out: Vec<char> = Vec::new();
    let mut i: usize = from;
    while i < to
        invariant
            from <= i <= to <= chars@.len(),
            out@ == chars@.subrange(from as int, i as int),
        decreases to - i,
    {
        proof {
            assert(chars@.subrange(from as int, i + 1) =~= chars@.subrange(
                from as int,
                i as int,
            ).push(chars@[i as int]));
        }
        out.push(chars[i]);
        i += 1;
    }
    out
}

/// The models of a list of character lists.
pub open spec fn char_lists(list: Seq<Vec<char>>) -> Seq<Seq<char>> {
    list.map_values(|chars: Vec<char>| chars@)
}

/// The lines of a text, without their line ends.
pub fn lines_of(chars: &Vec<char>) -> (r: Vec<Vec<char>>)
    ensures
        char_lists(r@) == text_lines(chars@),
{
    let mut out: Vec<Vec<char>> = Vec::new();
    let mut newline: Vec<char> = Vec::new();
    newline.push('\n');
    let mut from: usize = 0;
    proof {
        assert(newline@ =~= seq!['\n']);
        assert(chars@.skip(0) =~= chars@);
        assert(char_lists(out@) + text_lines(chars@) =~= text_lines(chars@));
    }
    while from < chars.len()
        invariant
            from <= chars@.len(),
            newline@ == seq!['\n'],
            char_lists(out@) + text_lines(chars@.skip(from as int)) == text_lines(chars@),
        decreases chars@.len() - from,
    {
        let ghost rest = chars@.skip(from as int);
        let ghost before = out@;
        let tail = part_of(chars, from, chars.len());
        proof {
            assert(tail@ =~= rest);
            position_is_first(rest, seq!['\n'], 0);
        }
        match find_chars(&tail, &newline, 0) {
            None => {
                proof {
                    assert(char_lists(out@.push(tail)) =~= char_lists(before) + seq![tail@]);
                    assert(text_lines(rest) =~= seq![rest]);
                }
                out.push(tail);
                proof {
                    assert(char_lists(out@) =~= text_lines(chars@));
                }
                return out;
            },
            Some(at) => {
                let end: usize = if at > 0 && tail[at - 1] == '\r' {
                    at - 1
                } else {
                    at
                };
                let line = part_of(&tail, 0, end);
                proof {
                    assert(line@ =~= without_return(rest.take(at as int)));
                    assert(rest.skip(at + 1) =~= chars@.skip(from + at + 1));
                    assert(char_lists(out@.push(line)) =~= char_lists(before).push(line@));
                    assert(char_lists(before).push(line@) + text_lines(rest.skip(at + 1))
                        =~= char_lists(before) + (seq![line@] + text_lines(rest.skip(at + 1))));
                }
                out.push(line);
                from = from + at + 1;
            },
        }
    }
    proof {
        assert(chars@.skip(from as int) =~= Seq::<char>::empty());
        assert(char_lists(out@) =~= text_lines(chars@));
    }
    out
}

/// Whether the characters begin with `prefix`.
pub fn chars_begin_with(chars: &Vec<char>, prefix: &str) -> (r: bool)
    ensures
        r == begins_with(chars@, prefix@),
{
    let p = chars_of(prefix);
    if p.len() > chars.len() {
        return false;
    }
    let mut i: usize = 0;
    while i < p.len()
        invariant
            i <= p@.len() <= chars@.len(),
            p@ == prefix@,
            forall|j: int| 0 <= j < i ==> chars@[j] == p@[j],
        decreases p@.len() - i,
    {
        if chars[i] != p[i] {
            proof {
                assert(chars@.take(prefix@.len() as int)[i as int] != prefix@[i as int]);
            }
            return false;
        }
        i += 1;
    }
    proof {
        assert(chars@.take(prefix@.len() as int) =~= prefix@);
    }
    true
}

/// What follows `prefix`, where the characters begin with it.
pub open spec fn after_prefix(text: Seq<char>, prefix: Seq<char>) -> Option<Seq<char>> {
    if begins_with(text, prefix) {
        Some(text.skip(prefix.len() as int))
    } else {
        None
    }
}

/// What follows `prefix`, where the characters begin with it.
pub fn strip_prefix(chars: &Vec<char>, prefix: &str) -> (r: Option<Vec<char>>)
    ensures
        match r {
            Some(rest) => after_prefix(chars@, prefix@) == Some(rest@),
            None => after_prefix(chars@, prefix@) is None,
        },
{
    if !chars_begin_with(chars, prefix) {
        return None;
    }
    let skip: usize = chars_of(prefix).len();
    let rest = part_of(chars, skip, chars.len());
    proof {
        assert(rest@ =~= chars@.skip(skip as int));
    }
    Some(rest)
}

/// What stands in front of `suffix`, where the characters end with it.
pub open spec fn before_suffix(text: Seq<char>, suffix: Seq<char>) -> Option<Seq<char>> {
    if suffix.len() <= text.len() && text.skip(text.len() - suffix.len()) == suffix {
        Some(text.take(text.len() - suffix.len()))
    } else {
        None
    }
}

/// What stands in front of `suffix`, where the characters end with it.
pub fn strip_suffix(chars: &Vec<char>, suffix: &str) -> (r: Option<Vec<char>>)
    ensures
        match r {
            Some(rest) => before_suffix(chars@, suffix@) == Some(rest@),
            None => before_suffix(chars@, suffix@) is None,
        },
{
    let s = chars_of(suffix);
    if s.len() > chars.len() {
        return None;
    }
    let total: usize = chars.len();
    let front: usize = total - s.len();
    let mut i: usize = 0;
    while i < s.len()
        invariant
            i <= s@.len(),
            total == chars@.len(),
            front + s@.len() == total,
            s@ == suffix@,
            forall|j: int| 0 <= j < i ==> chars@[front + j] == s@[j],
        decreases s@.len() - i,
    {
        if chars[front + i] != s[i] {
            proof {
                assert(chars@.skip(front as int)[i as int] != suffix@[i as int]);
            }
            return None;
        }
        i += 1;
    }
    proof {
        assert(chars@.skip(front as int) =~= suffix@);
        assert(chars@.subrange(0, front as int) =~= chars@.take(front as int));
    }
    Some(part_of(chars, 0, front))
}

/// The parts of a text between the separators `c`.
pub open spec fn split_text(text: Seq<char>, c: char) -> Seq<Seq<char>>
    decreases text.len(),
{
    match position(text, seq![c], 0) {
        Some(at) => if 0 <= at < text.len() {
            seq![text.take(at)] + split_text(text.skip(at + 1), c)
        } else {
            seq![text]
        },
        None => seq![text],
    }
}

/// The parts of a text between the separators `c`.
pub fn split_chars(chars: &Vec<char>, c: char) -> (r: Vec<Vec<char>>)
    ensures
        char_lists(r@) == split_text(chars@, c),
        r@.len() > 0,
{
    let mut out: Vec<Vec<char>> = Vec::new();
    let mut separator: Vec<char> = Vec::new();
    separator.push(c);
    let mut from: usize = 0;
    proof {
        assert(separator@ =~= seq![c]);
        assert(chars@.skip(0) =~= chars@);
        assert(char_lists(out@) + split_text(chars@, c) =~= split_text(chars@, c));
    }
    loop
        invariant
            from <= chars@.len(),
            separator@ == seq![c],
            char_lists(out@) + split_text(chars@.skip(from as int), c) == split_text(chars@, c),
        decreases chars@.len() - from,
    {
        let ghost rest = chars@.skip(from as int);
        let ghost before = out@;
        let tail = part_of(chars, from, chars.len());
        proof {
            assert(tail@ =~= rest);
            position_is_first(rest, seq![c], 0);
        }
        match find_chars(&tail, &separator, 0) {
            None => {
                proof {
                    assert(char_lists(out@.push(tail)) =~= char_lists(before) + seq![tail@]);
                    assert(split_text(rest, c) =~= seq![rest]);
                }
                out.push(tail);
                return out;
            },
            Some(at) => {
                let part = part_of(&tail, 0, at);
                proof {
                    assert(part@ =~= rest.take(at as int));
                    assert(rest.skip(at + 1) =~= chars@.skip(from + at + 1));
                    assert(char_lists(out@.push(part)) =~= char_lists(before).push(part@));
                    assert(char_lists(before).push(part@) + split_text(rest.skip(at + 1), c)
                        =~= char_lists(before) + (seq![part@] + split_text(rest.skip(at + 1), c)));
                }
                out.push(part);
                from = from + at + 1;
            },
        }
    }
}

/// A character without its ASCII case.
pub open spec fn ascii_lower(c: char) -> char {
    if 'A' <= c <= 'Z' {
        (c as u8 + 32) as u8 as char
    } else {
        c
    }
}

/// Whether two texts are equal but for ASCII case.
pub open spec fn same_but_case(a: Seq<char>, b: Seq<char>) -> bool {
    a.len() == b.len() && forall|i: int|
        0 <= i < a.len() ==> ascii_lower(#[trigger] a[i]) == ascii_lower(b[i])
}

fn lower(c: char) -> (r: char)
    ensures
        r == ascii_lower(c),
{
    if c >= 'A' && c <= 'Z' {
        (c as u8 + 32) as char
    } else {
        c
    }
}

/// Whether the first characters equal `other` but for ASCII case.
pub fn begins_but_case(chars: &Vec<char>, other: &str) -> (r: bool)
    ensures
        r == (other@.len() <= chars@.len() && same_but_case(
            chars@.take(other@.len() as int),
            other@,
        )),
{
    let o = chars_of(other);
    if o.len() > chars.len() {
        return false;
    }
    let mut i: usize = 0;
    while i < o.len()
        invariant
            i <= o@.len() <= chars@.len(),
            o@ == other@,
            forall|j: int| 0 <= j < i ==> ascii_lower(chars@[j]) == ascii_lower(#[trigger] o@[j]),
        decreases o@.len() - i,
    {
        if lower(chars[i]) != lower(o[i]) {
            proof {
                assert(chars@.take(other@.len() as int)[i as int] == chars@[i as int]);
            }
            return false;
        }
        i += 1;
    }
    proof {
        let front = chars@.take(other@.len() as int);
        assert forall|j: int| 0 <= j < front.len() implies ascii_lower(#[trigger] front[j])
            == ascii_lower(other@[j]) by {
            assert(o@[j] == other@[j]);
        }
    }
    true
}

/// Whether the characters equal `other` but for ASCII case.
pub fn equal_but_case(chars: &Vec<char>, other: &str) -> (r: bool)
    ensures
        r == same_but_case(chars@, other@),
{
    let count: usize = chars_of(other).len();
    proof {
        assert(chars@.take(chars@.len() as int) =~= chars@);
    }
    count == chars.len() && begins_but_case(chars, other)
}

} // verus!
