//! Text as the surfaces need it: characters and bytes, white space, searching,
//! and numbers written out.
use vstd::prelude::*;
use vstd::string::*;
use vstd::utf8::{
    encode_utf8, encode_utf8_decode_utf8, encode_utf8_valid_utf8, is_char_boundary,
    is_char_boundary_iff_not_is_continuation_byte, is_char_boundary_start_end_of_seq, valid_utf8,
    valid_utf8_split,
};

verus! {

/// `String::push` puts one character at the end of the text.
pub assume_specification[ std::string::String::push ](s: &mut std::string::String, c: char)
    ensures
        final(s)@ == old(s)@.push(c),
;

/// `str::to_lowercase` of a text: Unicode's lower-case form.
pub uninterp spec fn lowercase(text: Seq<char>) -> Seq<char>;

/// `str::to_lowercase`: the result is named, since Unicode's tables are not
/// written out here.
#[verifier::external_body]
pub(crate) fn to_lowercase(text: &str) -> (lower: String)
    ensures
        lower@ == lowercase(text@),
{
    text.to_lowercase()
}

/// `str::to_uppercase` of a text: Unicode's upper-case form.
pub uninterp spec fn uppercase(text: Seq<char>) -> Seq<char>;

/// `str::to_uppercase`: the result is named, since Unicode's tables are not
/// written out here.
#[verifier::external_body]
pub(crate) fn to_uppercase(text: &str) -> (upper: String)
    ensures
        upper@ == uppercase(text@),
{
    text.to_uppercase()
}

/// The characters of `text`, in order.
pub fn chars_of(text: &str) -> (chars: Vec<char>)
    ensures
        chars@ == text@,
{
    let mut chars: Vec<char> = Vec::new();
    for c in it: text.chars()
        invariant
            chars@ == text@.take(it.index()),
            it.seq() == text@,
    {
        chars.push(c);
        assert(text@.take(it.index() + 1) == text@.take(it.index()).push(c));
    }
    assert(text@.take(text@.len() as int) == text@);
    chars
}

/// The text made of `chars[from..to]`.
pub fn string_of_range(chars: &Vec<char>, from: usize, to: usize) -> (text: String)
    requires
        from <= to <= chars@.len(),
    ensures
        text@ == chars@.subrange(from as int, to as int),
{
    let mut text: String = String::new();
    let mut at: usize = from;
    while at < to
        invariant
            from <= at <= to <= chars@.len(),
            text@ == chars@.subrange(from as int, at as int),
        decreases to - at,
    {
        text.push(chars[at]);
        assert(chars@.subrange(from as int, at + 1) == chars@.subrange(from as int, at as int).push(
            chars@[at as int],
        ));
        at += 1;
    }
    text
}

/// The text made of all of `chars`.
pub fn string_of(chars: &Vec<char>) -> (text: String)
    ensures
        text@ == chars@,
{
    let text = string_of_range(chars, 0, chars.len());
    assert(chars@.subrange(0, chars@.len() as int) == chars@);
    text
}

/// Two texts have the same characters when they have the same bytes.
pub proof fn lemma_bytes_injective(a: Seq<char>, b: Seq<char>)
    requires
        encode_utf8(a) == encode_utf8(b),
    ensures
        a == b,
{
    encode_utf8_decode_utf8(a);
    encode_utf8_decode_utf8(b);
}

/// The bytes of two texts in a row are the bytes of each in a row.
pub proof fn lemma_bytes_concat(a: Seq<char>, b: Seq<char>)
    ensures
        encode_utf8(a + b) == encode_utf8(a) + encode_utf8(b),
    decreases a.len(),
{
    if a.len() == 0 {
        assert(a + b == b);
        assert(encode_utf8(a) + encode_utf8(b) == encode_utf8(b));
    } else {
        lemma_bytes_concat(a.drop_first(), b);
        assert((a + b).drop_first() == a.drop_first() + b);
        assert((a + b)[0] == a[0]);
        assert(encode_utf8(a + b) == encode_utf8(a) + encode_utf8(b));
    }
}

/// Whether two texts are the same.
pub fn same(a: &str, b: &str) -> (same: bool)
    ensures
        same == (a@ == b@),
{
    let left = a.as_bytes();
    let right = b.as_bytes();
    if left.len() != right.len() {
        return false;
    }
    let mut at: usize = 0;
    while at < left.len()
        invariant
            at <= left@.len() == right@.len(),
            left@ == encode_utf8(a@),
            right@ == encode_utf8(b@),
            left@.take(at as int) == right@.take(at as int),
        decreases left@.len() - at,
    {
        if left[at] != right[at] {
            return false;
        }
        assert(left@.take(at + 1) == left@.take(at as int).push(left@[at as int]));
        assert(right@.take(at + 1) == right@.take(at as int).push(right@[at as int]));
        at += 1;
    }
    assert(left@.take(at as int) == left@);
    assert(right@.take(at as int) == right@);
    proof {
        lemma_bytes_injective(a@, b@);
    }
    true
}

proof fn lemma_boundary_in_prefix(bytes: Seq<u8>, from: int, to: int)
    requires
        valid_utf8(bytes),
        0 <= from <= to <= bytes.len(),
        is_char_boundary(bytes, from),
        is_char_boundary(bytes, to),
    ensures
        valid_utf8(bytes.subrange(0, to)),
        is_char_boundary(bytes.subrange(0, to), from),
{
    valid_utf8_split(bytes, to);
    let prefix = bytes.subrange(0, to);
    if from == to {
        is_char_boundary_start_end_of_seq(prefix);
    } else {
        assert(prefix[from] == bytes[from]);
        is_char_boundary_iff_not_is_continuation_byte(bytes, from);
        is_char_boundary_iff_not_is_continuation_byte(prefix, from);
    }
}

/// The bytes between two characters of a text are a text themselves.
pub proof fn lemma_part_is_valid(bytes: Seq<u8>, from: int, to: int)
    requires
        valid_utf8(bytes),
        0 <= from <= to <= bytes.len(),
        is_char_boundary(bytes, from),
        is_char_boundary(bytes, to),
    ensures
        valid_utf8(bytes.subrange(from, to)),
{
    lemma_boundary_in_prefix(bytes, from, to);
    let head = bytes.subrange(0, to);
    valid_utf8_split(head, from);
    assert(head.subrange(from, to) == bytes.subrange(from, to));
}

/// The text between two byte offsets, each the start of a character or the end.
pub fn slice(text: &str, from: usize, to: usize) -> (part: &str)
    requires
        from <= to <= encode_utf8(text@).len(),
        is_char_boundary(encode_utf8(text@), from as int),
        is_char_boundary(encode_utf8(text@), to as int),
    ensures
        encode_utf8(part@) == encode_utf8(text@).subrange(from as int, to as int),
{
    proof {
        encode_utf8_valid_utf8(text@);
        lemma_boundary_in_prefix(encode_utf8(text@), from as int, to as int);
    }
    let (head, _) = text.split_at(to);
    let (_, part) = head.split_at(from);
    assert(encode_utf8(part@) == encode_utf8(text@).subrange(from as int, to as int));
    part
}

/// A byte offset begins a character exactly where it is the length of the
/// characters before it.
pub proof fn lemma_boundary_is_prefix(text: Seq<char>, at: int)
    ensures
        is_char_boundary(encode_utf8(text), at) <==> exists|k: int|
            0 <= k <= text.len() && #[trigger] encode_utf8(text.take(k)).len() == at,
    decreases text.len(),
{
    encode_utf8_valid_utf8(text);
    assert(text.take(0) == Seq::<char>::empty());
    assert(encode_utf8(text.take(0)).len() == 0);
    if text.len() == 0 {
        assert(forall|k: int| 0 <= k <= text.len() ==> #[trigger] text.take(k) == text);
    } else {
        let rest = text.drop_first();
        let width = vstd::utf8::encode_scalar(text[0] as u32).len() as int;
        vstd::utf8::encode_utf8_first_scalar(text);
        assert(encode_utf8(text) == vstd::utf8::encode_scalar(text[0] as u32) + encode_utf8(rest));
        assert(vstd::utf8::pop_first_scalar(encode_utf8(text)) == encode_utf8(rest));
        assert(width > 0);
        lemma_boundary_is_prefix(rest, at - width);
        assert forall|k: int| 1 <= k <= text.len() implies #[trigger] encode_utf8(
            text.take(k),
        ).len() == width + encode_utf8(rest.take(k - 1)).len() by {
            assert(text.take(k).drop_first() == rest.take(k - 1));
            assert(text.take(k)[0] == text[0]);
        }
        if is_char_boundary(encode_utf8(text), at) {
            if at != 0 {
                let k = choose|k: int|
                    0 <= k <= rest.len() && #[trigger] encode_utf8(rest.take(k)).len() == at
                        - width;
                assert(encode_utf8(text.take(k + 1)).len() == at);
            }
        }
        if exists|k: int|
            0 <= k <= text.len() && #[trigger] encode_utf8(text.take(k)).len() == at {
            let k = choose|k: int|
                0 <= k <= text.len() && #[trigger] encode_utf8(text.take(k)).len() == at;
            if k == 0 {
                assert(at == 0);
            } else {
                assert(encode_utf8(rest.take(k - 1)).len() == at - width);
                lemma_boundary_in_range(rest, at - width);
            }
        }
    }
}

proof fn lemma_boundary_in_range(text: Seq<char>, at: int)
    requires
        exists|k: int| 0 <= k <= text.len() && #[trigger] encode_utf8(text.take(k)).len() == at,
    ensures
        0 <= at <= encode_utf8(text).len(),
{
    let k = choose|k: int| 0 <= k <= text.len() && #[trigger] encode_utf8(text.take(k)).len() == at;
    lemma_bytes_concat(text.take(k), text.skip(k));
    assert(text.take(k) + text.skip(k) == text);
}

/// Unicode's `White_Space` characters.
pub open spec fn white_space(c: char) -> bool {
    let n = c as u32;
    ||| 0x09 <= n <= 0x0d
    ||| n == 0x20
    ||| n == 0x85
    ||| n == 0xa0
    ||| n == 0x1680
    ||| 0x2000 <= n <= 0x200a
    ||| n == 0x2028
    ||| n == 0x2029
    ||| n == 0x202f
    ||| n == 0x205f
    ||| n == 0x3000
}

pub fn is_white_space(c: char) -> (white: bool)
    ensures
        white == white_space(c),
{
    let n: u32 = c as u32;
    (0x09 <= n && n <= 0x0d) || n == 0x20 || n == 0x85 || n == 0xa0 || n == 0x1680 || (0x2000 <= n
        && n <= 0x200a) || n == 0x2028 || n == 0x2029 || n == 0x202f || n == 0x205f || n == 0x3000
}

/// The text without the white space it begins with.
pub open spec fn trim_start(text: Seq<char>) -> Seq<char>
    decreases text.len(),
{
    if text.len() > 0 && white_space(text[0]) {
        trim_start(text.drop_first())
    } else {
        text
    }
}

/// The text without the white space it ends with.
pub open spec fn trim_end(text: Seq<char>) -> Seq<char>
    decreases text.len(),
{
    if text.len() > 0 && white_space(text.last()) {
        trim_end(text.drop_last())
    } else {
        text
    }
}

/// The text without the white space around it.
pub open spec fn trimmed(text: Seq<char>) -> Seq<char> {
    trim_end(trim_start(text))
}

/// The text without the white space around it.
pub fn trim(text: &str) -> (core: String)
    ensures
        core@ == trimmed(text@),
{
    let chars = chars_of(text);
    let mut from: usize = 0;
    assert(text@.subrange(0, text@.len() as int) == text@);
    while from < chars.len() && is_white_space(chars[from])
        invariant
            chars@ == text@,
            from <= chars@.len(),
            trim_start(text@) == trim_start(text@.subrange(from as int, text@.len() as int)),
        decreases chars@.len() - from,
    {
        assert(text@.subrange(from as int, text@.len() as int).drop_first() == text@.subrange(
            from + 1,
            text@.len() as int,
        ));
        from += 1;
    }
    let ghost start = text@.subrange(from as int, text@.len() as int);
    assert(trim_start(text@) == start);
    let mut to: usize = chars.len();
    while to > from && is_white_space(chars[to - 1])
        invariant
            chars@ == text@,
            from <= to <= chars@.len(),
            trim_start(text@) == start,
            trim_end(start) == trim_end(text@.subrange(from as int, to as int)),
        decreases to,
    {
        assert(text@.subrange(from as int, to as int).drop_last() == text@.subrange(
            from as int,
            to - 1,
        ));
        to -= 1;
    }
    string_of_range(&chars, from, to)
}

proof fn lemma_trim_start_first(text: Seq<char>)
    ensures
        trim_start(text).len() > 0 ==> !white_space(trim_start(text)[0]),
    decreases text.len(),
{
    if text.len() > 0 && white_space(text[0]) {
        lemma_trim_start_first(text.drop_first());
    }
}

proof fn lemma_trim_end_ends(text: Seq<char>)
    ensures
        trim_end(text).len() <= text.len(),
        trim_end(text) == text.take(trim_end(text).len() as int),
        trim_end(text).len() > 0 ==> !white_space(trim_end(text).last()),
    decreases text.len(),
{
    if text.len() > 0 && white_space(text.last()) {
        lemma_trim_end_ends(text.drop_last());
        let kept = trim_end(text).len() as int;
        assert(text.drop_last().take(kept) == text.take(kept));
    } else {
        assert(text.take(text.len() as int) == text);
    }
}

/// Trimmed text neither begins nor ends with white space, and trimming it again
/// changes nothing.
pub proof fn trimming_is_final(text: Seq<char>)
    ensures
        trimmed(text).len() > 0 ==> !white_space(trimmed(text)[0]) && !white_space(
            trimmed(text).last(),
        ),
        trimmed(trimmed(text)) == trimmed(text),
{
    lemma_trim_start_first(text);
    lemma_trim_end_ends(trim_start(text));
}

/// Trimming keeps a part of the text in one piece.
pub proof fn lemma_trimmed_is_part(text: Seq<char>)
    ensures
        exists|from: int|
            0 <= from && from + trimmed(text).len() <= text.len() && trimmed(text)
                == #[trigger] text.subrange(from, from + trimmed(text).len()),
{
    lemma_trim_start_is_suffix(text);
    let from = text.len() - trim_start(text).len();
    lemma_trim_end_ends(trim_start(text));
    assert(trimmed(text) == text.subrange(from, from + trimmed(text).len()));
}

proof fn lemma_trim_start_is_suffix(text: Seq<char>)
    ensures
        trim_start(text).len() <= text.len(),
        trim_start(text) == text.skip(text.len() - trim_start(text).len()),
    decreases text.len(),
{
    if text.len() > 0 && white_space(text[0]) {
        lemma_trim_start_is_suffix(text.drop_first());
        let kept = trim_start(text);
        assert(text.drop_first().skip(text.len() - 1 - kept.len()) == text.skip(
            text.len() - kept.len(),
        ));
    } else {
        assert(text.skip(0) == text);
    }
}

/// Runs of white space become one space each, with none at the ends.
pub open spec fn squeezed(text: Seq<char>) -> Seq<char>
    decreases text.len(),
{
    if text.len() == 0 {
        text
    } else {
        let before = squeezed(text.drop_last());
        let c = text.last();
        if white_space(c) {
            before
        } else if before.len() == 0 || !white_space(text[text.len() - 2]) {
            before.push(c)
        } else {
            before.push(' ').push(c)
        }
    }
}

/// The words of a text on one line, a space between each two.
pub fn squeeze(text: &str) -> (line: String)
    ensures
        line@ == squeezed(text@),
{
    let chars = chars_of(text);
    let mut line: String = String::new();
    let mut empty: bool = true;
    let mut at: usize = 0;
    assert(text@.take(0) == Seq::<char>::empty());
    while at < chars.len()
        invariant
            chars@ == text@,
            at <= chars@.len(),
            line@ == squeezed(text@.take(at as int)),
            empty == (line@.len() == 0),
        decreases chars@.len() - at,
    {
        let c = chars[at];
        assert(text@.take(at + 1).drop_last() == text@.take(at as int));
        assert(text@.take(at + 1).last() == c);
        if !is_white_space(c) {
            if !empty && is_white_space(chars[at - 1]) {
                line.push(' ');
            }
            line.push(c);
            empty = false;
        }
        at += 1;
    }
    assert(text@.take(at as int) == text@);
    line
}

proof fn lemma_squeezed_shape(text: Seq<char>)
    ensures
        squeezed(text).len() > 0 ==> !white_space(squeezed(text)[0]) && !white_space(
            squeezed(text).last(),
        ),
        forall|i: int|
            0 <= i < squeezed(text).len() && white_space(#[trigger] squeezed(text)[i]) ==> squeezed(
                text,
            )[i] == ' ',
        forall|i: int, j: int|
            0 <= i < squeezed(text).len() && j == i + 1 && j < squeezed(text).len() ==> !(
            white_space(#[trigger] squeezed(text)[i]) && white_space(#[trigger] squeezed(text)[j])),
    decreases text.len(),
{
    if text.len() > 0 {
        lemma_squeezed_shape(text.drop_last());
    }
}

/// Squeezed text is one line: its only white space is single spaces between
/// words.
pub proof fn squeezing_leaves_one_line(text: Seq<char>)
    ensures
        !squeezed(text).contains('\n'),
        squeezed(text).len() > 0 ==> !white_space(squeezed(text)[0]) && !white_space(
            squeezed(text).last(),
        ),
        forall|i: int|
            0 <= i < squeezed(text).len() && white_space(#[trigger] squeezed(text)[i]) ==> squeezed(
                text,
            )[i] == ' ',
        forall|i: int, j: int|
            0 <= i < squeezed(text).len() && j == i + 1 && j < squeezed(text).len() ==> !(
            white_space(#[trigger] squeezed(text)[i]) && white_space(#[trigger] squeezed(text)[j])),
{
    lemma_squeezed_shape(text);
    if squeezed(text).contains('\n') {
        let i = choose|i: int| 0 <= i < squeezed(text).len() && squeezed(text)[i] == '\n';
        assert(white_space(squeezed(text)[i]));
    }
}

/// `needle` stands in `hay` at `at`.
pub open spec fn occurs_at(hay: Seq<char>, needle: Seq<char>, at: int) -> bool {
    0 <= at && at + needle.len() <= hay.len() && hay.subrange(at, at + needle.len()) == needle
}

/// `needle` stands somewhere in `hay`.
pub open spec fn occurs(hay: Seq<char>, needle: Seq<char>) -> bool {
    exists|at: int| #[trigger] occurs_at(hay, needle, at)
}

fn occurs_here(hay: &Vec<char>, needle: &Vec<char>, at: usize) -> (found: bool)
    requires
        at + needle@.len() <= hay@.len(),
    ensures
        found == occurs_at(hay@, needle@, at as int),
{
    let total: usize = hay.len();
    let mut k: usize = 0;
    while k < needle.len()
        invariant
            k <= needle@.len(),
            total == hay@.len(),
            at + needle@.len() <= total,
            forall|i: int| 0 <= i < k ==> hay@[at + i] == needle@[i],
        decreases needle@.len() - k,
    {
        if hay[at + k] != needle[k] {
            assert(hay@.subrange(at as int, at + needle@.len())[k as int] != needle@[k as int]);
            return false;
        }
        k += 1;
    }
    assert(hay@.subrange(at as int, at + needle@.len()) == needle@);
    true
}

/// Whether `needle` stands somewhere in `hay`.
pub fn contains(hay: &str, needle: &str) -> (found: bool)
    ensures
        found == occurs(hay@, needle@),
{
    let hay_chars = chars_of(hay);
    let needle_chars = chars_of(needle);
    if needle_chars.len() > hay_chars.len() {
        return false;
    }
    let last: usize = hay_chars.len() - needle_chars.len();
    let mut at: usize = 0;
    while at <= last
        invariant
            hay_chars@ == hay@,
            needle_chars@ == needle@,
            last + needle@.len() == hay@.len(),
            hay_chars@.len() <= usize::MAX,
            at <= last + 1,
            forall|i: int| 0 <= i < at ==> !occurs_at(hay@, needle@, i),
        decreases last + 1 - at,
    {
        if occurs_here(&hay_chars, &needle_chars, at) {
            return true;
        }
        if at == last {
            return false;
        }
        at += 1;
    }
    false
}

/// The empty text stands in every text.
pub proof fn the_empty_text_occurs_everywhere(hay: Seq<char>)
    ensures
        occurs(hay, Seq::<char>::empty()),
{
    assert(hay.subrange(0, 0) == Seq::<char>::empty());
    assert(occurs_at(hay, Seq::<char>::empty(), 0));
}

/// Whether the character stands somewhere in the text.
pub fn contains_char(text: &str, wanted: char) -> (found: bool)
    ensures
        found == text@.contains(wanted),
{
    let chars = chars_of(text);
    let mut at: usize = 0;
    while at < chars.len()
        invariant
            chars@ == text@,
            at <= chars@.len(),
            forall|i: int| 0 <= i < at ==> text@[i] != wanted,
        decreases chars@.len() - at,
    {
        if chars[at] == wanted {
            return true;
        }
        at += 1;
    }
    false
}

/// The text has `prefix` at its front.
pub open spec fn begins(text: Seq<char>, prefix: Seq<char>) -> bool {
    occurs_at(text, prefix, 0)
}

pub fn starts_with(text: &str, prefix: &str) -> (found: bool)
    ensures
        found == begins(text@, prefix@),
{
    let chars = chars_of(text);
    let prefix_chars = chars_of(prefix);
    prefix_chars.len() <= chars.len() && occurs_here(&chars, &prefix_chars, 0)
}

/// An ASCII letter in lower case, any other character as it is.
pub open spec fn ascii_lower(c: char) -> char {
    if 'A' <= c && c <= 'Z' {
        (c as u32 + 32) as char
    } else {
        c
    }
}

pub fn to_ascii_lower(c: char) -> (lower: char)
    ensures
        lower == ascii_lower(c),
{
    if 'A' <= c && c <= 'Z' {
        (c as u8 + 32) as char
    } else {
        c
    }
}

/// A text with its ASCII letters in lower case.
pub open spec fn ascii_lowercase(text: Seq<char>) -> Seq<char> {
    Seq::new(text.len(), |i: int| ascii_lower(text[i]))
}

/// A text with its ASCII letters in lower case.
pub fn to_ascii_lowercase(text: &str) -> (lower: String)
    ensures
        lower@ == ascii_lowercase(text@),
{
    let chars = chars_of(text);
    let mut lower: String = String::new();
    let mut at: usize = 0;
    while at < chars.len()
        invariant
            chars@ == text@,
            at <= chars@.len(),
            lower@ == ascii_lowercase(text@.take(at as int)),
        decreases chars@.len() - at,
    {
        lower.push(to_ascii_lower(chars[at]));
        assert(ascii_lowercase(text@.take(at + 1)) == ascii_lowercase(text@.take(at as int)).push(
            ascii_lower(text@[at as int]),
        ));
        at += 1;
    }
    assert(text@.take(at as int) == text@);
    lower
}

/// An ASCII letter in upper case, any other character as it is.
pub open spec fn ascii_upper(c: char) -> char {
    if 'a' <= c && c <= 'z' {
        (c as u32 - 32) as char
    } else {
        c
    }
}

/// A text with its ASCII letters in upper case.
pub open spec fn ascii_uppercase(text: Seq<char>) -> Seq<char> {
    Seq::new(text.len(), |i: int| ascii_upper(text[i]))
}

/// A text with its ASCII letters in upper case.
pub fn to_ascii_uppercase(text: &str) -> (upper: String)
    ensures
        upper@ == ascii_uppercase(text@),
{
    let chars = chars_of(text);
    let mut upper: String = String::new();
    let mut at: usize = 0;
    while at < chars.len()
        invariant
            chars@ == text@,
            at <= chars@.len(),
            upper@ == ascii_uppercase(text@.take(at as int)),
        decreases chars@.len() - at,
    {
        let c = chars[at];
        upper.push(
            if 'a' <= c && c <= 'z' {
                (c as u8 - 32) as char
            } else {
                c
            },
        );
        assert(ascii_uppercase(text@.take(at + 1)) == ascii_uppercase(text@.take(at as int)).push(
            ascii_upper(text@[at as int]),
        ));
        at += 1;
    }
    assert(text@.take(at as int) == text@);
    upper
}

pub open spec fn digit(d: nat) -> char {
    (48 + d) as char
}

/// A number in base ten, without leading zeros.
pub open spec fn decimal(n: nat) -> Seq<char>
    decreases n,
{
    if n < 10 {
        seq![digit(n)]
    } else {
        decimal(n / 10).push(digit(n % 10))
    }
}

/// How many digits a small number has.
pub proof fn lemma_decimal_len(n: nat)
    ensures
        1 <= decimal(n).len(),
        n < 10 ==> decimal(n).len() == 1,
        10 <= n < 100 ==> decimal(n).len() == 2,
        100 <= n < 1000 ==> decimal(n).len() == 3,
        1000 <= n < 10_000 ==> decimal(n).len() == 4,
{
    reveal_with_fuel(decimal, 4);
}

fn digit_char(d: u64) -> (c: char)
    requires
        d < 10,
    ensures
        c == digit(d as nat),
{
    (48u8 + d as u8) as char
}

/// A number written out in base ten.
pub fn decimal_text(n: u64) -> (text: String)
    ensures
        text@ == decimal(n as nat),
    decreases n,
{
    if n < 10 {
        let mut text: String = String::new();
        text.push(digit_char(n));
        assert(text@ == seq![digit(n as nat)]);
        text
    } else {
        let mut text: String = decimal_text(n / 10);
        text.push(digit_char(n % 10));
        text
    }
}

/// Writes a number after `out`.
pub fn push_decimal(out: &mut String, n: u64)
    ensures
        final(out)@ == old(out)@ + decimal(n as nat),
{
    let text = decimal_text(n);
    out.append(text.as_str());
}

/// A whole number in base ten, with its sign.
pub open spec fn signed_decimal(n: int) -> Seq<char> {
    if n < 0 {
        seq!['-'] + decimal((-n) as nat)
    } else {
        decimal(n as nat)
    }
}

/// A whole number written out in base ten.
pub fn signed_decimal_text(n: i64) -> (text: String)
    ensures
        text@ == signed_decimal(n as int),
{
    if n < 0 {
        let mut text: String = String::new();
        text.push('-');
        let size: u64 = (-(n + 1)) as u64 + 1;
        push_decimal(&mut text, size);
        assert(text@ == signed_decimal(n as int));
        text
    } else {
        decimal_text(n as u64)
    }
}

/// A number in base ten, filled up to `width` with zeros in front.
pub open spec fn zero_padded(n: nat, width: nat) -> Seq<char> {
    let digits = decimal(n);
    if digits.len() >= width {
        digits
    } else {
        Seq::new((width - digits.len()) as nat, |i: int| '0') + digits
    }
}

/// Writes `n` after `out`, filled up to `width` with zeros in front.
pub fn push_zero_padded(out: &mut String, n: u64, width: usize)
    ensures
        final(out)@ == old(out)@ + zero_padded(n as nat, width as nat),
{
    let text = decimal_text(n);
    let mut have: usize = chars_of(text.as_str()).len();
    let ghost zeros: nat = 0;
    while have < width
        invariant
            text@ == decimal(n as nat),
            text@.len() <= have,
            have <= width || have == text@.len(),
            zeros == have - text@.len(),
            out@ == old(out)@ + Seq::new(zeros, |i: int| '0'),
        decreases width - have,
    {
        out.push('0');
        have += 1;
        proof {
            zeros = zeros + 1;
        }
    }
    out.append(text.as_str());
    assert(out@ == old(out)@ + zero_padded(n as nat, width as nat));
}

pub open spec fn is_digit(c: char) -> bool {
    '0' <= c && c <= '9'
}

/// The number that a run of digits writes.
pub open spec fn digits_value(digits: Seq<char>) -> nat
    decreases digits.len(),
{
    if digits.len() == 0 {
        0
    } else {
        digits_value(digits.drop_last()) * 10 + (digits.last() as nat - 48) as nat
    }
}

/// The digits of a number as `str::parse` takes them: a plus sign may stand in
/// front.
pub open spec fn unsigned_digits(text: Seq<char>) -> Seq<char> {
    if text.len() > 0 && text[0] == '+' {
        text.drop_first()
    } else {
        text
    }
}

/// The number up to `max` that a text writes, if it writes one.
pub open spec fn parsed(text: Seq<char>, max: nat) -> Option<nat> {
    let digits = unsigned_digits(text);
    if digits.len() > 0 && (forall|i: int| 0 <= i < digits.len() ==> is_digit(#[trigger] digits[i]))
        && digits_value(digits) <= max {
        Some(digits_value(digits))
    } else {
        None
    }
}

proof fn lemma_digits_value_grows(digits: Seq<char>, shorter: int)
    requires
        0 <= shorter <= digits.len(),
        forall|i: int| 0 <= i < digits.len() ==> is_digit(#[trigger] digits[i]),
    ensures
        digits_value(digits.take(shorter)) <= digits_value(digits),
    decreases digits.len(),
{
    if shorter == digits.len() {
        assert(digits.take(shorter) == digits);
    } else {
        lemma_digits_value_grows(digits.drop_last(), shorter);
        assert(digits.drop_last().take(shorter) == digits.take(shorter));
    }
}

/// Reads a number as `str::parse` does for an unsigned type whose greatest
/// value is `max`.
pub fn parse_up_to(text: &str, max: u64) -> (number: Option<u64>)
    requires
        max <= 0xffff_ffff,
    ensures
        match number {
            Some(n) => parsed(text@, max as nat) == Some(n as nat),
            None => parsed(text@, max as nat) is None,
        },
{
    let chars = chars_of(text);
    let mut at: usize = 0;
    if chars.len() > 0 && chars[0] == '+' {
        at = 1;
    }
    let ghost digits = unsigned_digits(text@);
    let from: usize = at;
    assert(digits == text@.subrange(from as int, text@.len() as int));
    if at == chars.len() {
        return None;
    }
    let mut value: u64 = 0;
    assert(digits.take(0) == Seq::<char>::empty());
    while at < chars.len()
        invariant
            chars@ == text@,
            from <= at <= chars@.len(),
            digits == text@.subrange(from as int, text@.len() as int),
            digits == unsigned_digits(text@),
            max <= 0xffff_ffff,
            value <= max,
            value == digits_value(digits.take(at - from)),
            forall|i: int| 0 <= i < at - from ==> is_digit(#[trigger] digits[i]),
        decreases chars@.len() - at,
    {
        let c = chars[at];
        assert(digits[at - from] == c);
        if c < '0' || c > '9' {
            return None;
        }
        let d: u64 = c as u64 - 48;
        assert(digits.take(at - from + 1).drop_last() == digits.take(at - from));
        assert(digits.take(at - from + 1).last() == c);
        assert(digits_value(digits.take(at - from + 1)) == value * 10 + d);
        if value * 10 + d > max {
            proof {
                if forall|i: int| 0 <= i < digits.len() ==> is_digit(#[trigger] digits[i]) {
                    lemma_digits_value_grows(digits, at - from + 1);
                }
            }
            return None;
        }
        value = value * 10 + d;
        at += 1;
    }
    assert(digits.take(at - from) == digits);
    Some(value)
}

proof fn lemma_decimal_digits(n: nat)
    ensures
        decimal(n).len() > 0,
        forall|i: int| 0 <= i < decimal(n).len() ==> is_digit(#[trigger] decimal(n)[i]),
        digits_value(decimal(n)) == n,
    decreases n,
{
    if n < 10 {
        assert(decimal(n).drop_last() == Seq::<char>::empty());
        assert(digits_value(decimal(n).drop_last()) == 0);
    } else {
        lemma_decimal_digits(n / 10);
        assert(decimal(n).drop_last() == decimal(n / 10));
    }
}

/// A number written out reads back as itself.
pub proof fn a_written_number_reads_back(n: nat, max: nat)
    requires
        n <= max,
    ensures
        parsed(decimal(n), max) == Some(n),
{
    lemma_decimal_digits(n);
    assert(is_digit(decimal(n)[0]));
}

/// A number written out carries no white space.
pub proof fn lemma_decimal_is_trimmed(n: nat)
    ensures
        trimmed(decimal(n)) == decimal(n),
{
    lemma_decimal_digits(n);
    let digits = decimal(n);
    assert(is_digit(digits[0]));
    assert(is_digit(digits[digits.len() - 1]));
}

/// `"s"` unless there is exactly one.
pub open spec fn plural_s(n: nat) -> Seq<char> {
    if n == 1 {
        ""@
    } else {
        "s"@
    }
}

pub fn plural(n: u64) -> (suffix: &'static str)
    ensures
        suffix@ == plural_s(n as nat),
{
    if n == 1 {
        ""
    } else {
        "s"
    }
}

/// No more than the first `limit` characters.
pub open spec fn clipped(text: Seq<char>, limit: int) -> Seq<char> {
    if text.len() <= limit {
        text
    } else {
        text.take(limit)
    }
}

/// No more than the first `limit` characters.
pub fn clip(text: &str, limit: usize) -> (short: String)
    ensures
        short@ == clipped(text@, limit as int),
{
    let chars = chars_of(text);
    if chars.len() <= limit {
        string_of(&chars)
    } else {
        assert(text@.take(limit as int) == text@.subrange(0, limit as int));
        string_of_range(&chars, 0, limit)
    }
}

/// What an optional text says.
pub open spec fn opt(text: Option<String>) -> Option<Seq<char>> {
    match text {
        Some(text) => Some(text@),
        None => None,
    }
}

/// What each of a list of texts says.
pub open spec fn texts(list: Seq<String>) -> Seq<Seq<char>> {
    Seq::new(list.len(), |i: int| list[i]@)
}

/// One more text at the end of a list.
pub fn push_text(list: &mut Vec<String>, text: &str)
    ensures
        texts(final(list)@) == texts(old(list)@).push(text@),
{
    list.push(text.to_string());
    assert(texts(list@) == texts(old(list)@).push(text@));
}

/// The lines of a text: what stands between its line breaks.
pub open spec fn lines_of(text: Seq<char>) -> Seq<Seq<char>>
    decreases text.len(),
{
    if text.len() == 0 {
        seq![text]
    } else {
        let before = lines_of(text.drop_last());
        if text.last() == '\n' {
            before.push(Seq::empty())
        } else {
            before.drop_last().push(before.last().push(text.last()))
        }
    }
}

/// Lines with a line break between each two.
pub open spec fn joined(lines: Seq<Seq<char>>) -> Seq<char>
    decreases lines.len(),
{
    if lines.len() == 0 {
        Seq::empty()
    } else if lines.len() == 1 {
        lines[0]
    } else {
        joined(lines.drop_last()).push('\n') + lines.last()
    }
}

/// A text is its lines with the line breaks put back, and none of them holds
/// one itself.
pub proof fn a_text_is_its_lines(text: Seq<char>)
    ensures
        lines_of(text).len() >= 1,
        joined(lines_of(text)) == text,
        forall|i: int| 0 <= i < lines_of(text).len() ==> !(#[trigger] lines_of(text)[i]).contains('\n'),
    decreases text.len(),
{
    let lines = lines_of(text);
    if text.len() > 0 {
        let before = lines_of(text.drop_last());
        a_text_is_its_lines(text.drop_last());
        assert(text == text.drop_last().push(text.last()));
        if text.last() == '\n' {
            assert(lines.drop_last() == before);
            assert(joined(lines) == text);
        } else {
            assert(lines.drop_last() == before.drop_last());
            assert(lines.last() == before.last().push(text.last()));
            assert(joined(lines) == joined(before).push(text.last()));
            assert forall|i: int| 0 <= i < lines.len() implies !(#[trigger] lines[i]).contains(
                '\n',
            ) by {
                assert(!before[i].contains('\n'));
                if i == lines.len() - 1 {
                    assert forall|k: int| 0 <= k < lines[i].len() implies lines[i][k] != '\n' by {
                        if k < before[i].len() {
                            assert(before[i].contains(before[i][k]));
                        }
                    }
                }
            }
        }
    } else {
        assert(lines[0] == text);
    }
}

/// Split a text into its lines.
pub fn split_lines(text: &str) -> (lines: Vec<String>)
    ensures
        texts(lines@) == lines_of(text@),
{
    let chars = chars_of(text);
    let mut lines: Vec<String> = Vec::new();
    let mut line: String = String::new();
    let mut i: usize = 0;
    assert(text@.take(0) == Seq::<char>::empty());
    assert(texts(lines@).push(line@) == lines_of(text@.take(0)));
    while i < chars.len()
        invariant
            chars@ == text@,
            i <= text@.len(),
            texts(lines@).push(line@) == lines_of(text@.take(i as int)),
        decreases text@.len() - i,
    {
        let c = chars[i];
        let ghost before = lines_of(text@.take(i as int));
        assert(text@.take(i + 1).drop_last() == text@.take(i as int));
        assert(before.last() == line@);
        assert(before.drop_last() == texts(lines@));
        if c == '\n' {
            let ghost done = lines@;
            let ghost said = line@;
            lines.push(line);
            line = String::new();
            assert(texts(lines@) == texts(done).push(said));
            assert(texts(lines@).push(line@) == before.push(Seq::empty()));
        } else {
            line.push(c);
        }
        i += 1;
    }
    assert(text@.take(i as int) == text@);
    let ghost done = lines@;
    let ghost said = line@;
    lines.push(line);
    assert(texts(lines@) == texts(done).push(said));
    lines
}

/// A list of texts without one of them.
pub open spec fn without(list: Seq<Seq<char>>, key: Seq<char>) -> Seq<Seq<char>>
    decreases list.len(),
{
    if list.len() == 0 {
        list
    } else if list.last() == key {
        without(list.drop_last(), key)
    } else {
        without(list.drop_last(), key).push(list.last())
    }
}

/// A list of texts with one of them out where it was in, and in where it was
/// out.
pub open spec fn toggled(list: Seq<Seq<char>>, key: Seq<char>) -> Seq<Seq<char>> {
    if list.contains(key) {
        without(list, key)
    } else {
        list.push(key)
    }
}

/// Whether a text is in the list.
pub fn listed(list: &Vec<String>, key: &str) -> (found: bool)
    ensures
        found == texts(list@).contains(key@),
{
    let mut i: usize = 0;
    while i < list.len()
        invariant
            i <= list@.len(),
            forall|k: int| 0 <= k < i ==> list@[k]@ != key@,
        decreases list@.len() - i,
    {
        if same(list[i].as_str(), key) {
            assert(texts(list@)[i as int] == key@);
            return true;
        }
        i += 1;
    }
    false
}

/// Takes a text out of the list where it is in, and puts it in where it is out.
pub fn toggle(list: &mut Vec<String>, key: &str)
    ensures
        texts(final(list)@) == toggled(texts(old(list)@), key@),
{
    if listed(list, key) {
        let mut kept: Vec<String> = Vec::new();
        let mut i: usize = 0;
        assert(texts(kept@) == without(texts(list@).take(0), key@));
        while i < list.len()
            invariant
                i <= list@.len(),
                texts(kept@) == without(texts(list@).take(i as int), key@),
            decreases list@.len() - i,
        {
            let ghost before = kept@;
            assert(texts(list@).take(i + 1).drop_last() == texts(list@).take(i as int));
            assert(texts(list@).take(i + 1).last() == list@[i as int]@);
            if !same(list[i].as_str(), key) {
                kept.push(list[i].as_str().to_string());
                assert(texts(kept@) == texts(before).push(list@[i as int]@));
            }
            i += 1;
        }
        assert(texts(list@).take(i as int) == texts(list@));
        *list = kept;
    } else {
        let ghost before = list@;
        list.push(key.to_string());
        assert(texts(list@) == texts(before).push(key@));
    }
}

proof fn lemma_without(list: Seq<Seq<char>>, key: Seq<char>, other: Seq<char>)
    ensures
        without(list, key).contains(other) <==> other != key && list.contains(other),
    decreases list.len(),
{
    if list.len() > 0 {
        let front = list.drop_last();
        lemma_without(front, key, other);
        assert(list == front.push(list.last()));
        let kept = without(front, key);
        if front.contains(other) {
            let i = choose|i: int| 0 <= i < front.len() && front[i] == other;
            assert(list[i] == other);
        }
        if list.last() == other {
            assert(list[list.len() - 1] == other);
        }
        if list.contains(other) && list.last() != other {
            let i = choose|i: int| 0 <= i < list.len() && list[i] == other;
            assert(front[i] == other);
        }
        if list.last() != key {
            let all = kept.push(list.last());
            if kept.contains(other) {
                let i = choose|i: int| 0 <= i < kept.len() && kept[i] == other;
                assert(all[i] == other);
            }
            if list.last() == other {
                assert(all[kept.len() as int] == other);
            }
            if all.contains(other) && list.last() != other {
                let i = choose|i: int| 0 <= i < all.len() && all[i] == other;
                assert(kept[i] == other);
            }
        }
    }
}

/// Toggling changes whether the one text is listed, and nothing else.
pub proof fn toggling_flips_one(list: Seq<Seq<char>>, key: Seq<char>, other: Seq<char>)
    ensures
        toggled(list, key).contains(key) == !list.contains(key),
        other != key ==> toggled(list, key).contains(other) == list.contains(other),
{
    lemma_without(list, key, key);
    lemma_without(list, key, other);
    if !list.contains(key) {
        let all = list.push(key);
        assert(all[list.len() as int] == key);
        if list.contains(other) {
            let i = choose|i: int| 0 <= i < list.len() && list[i] == other;
            assert(all[i] == other);
        }
        if all.contains(other) && other != key {
            let i = choose|i: int| 0 <= i < all.len() && all[i] == other;
            assert(list[i] == other);
        }
    }
}

/// Toggling twice leaves the same texts listed.
pub proof fn toggling_twice_changes_nothing(
    list: Seq<Seq<char>>,
    key: Seq<char>,
    other: Seq<char>,
)
    ensures
        toggled(toggled(list, key), key).contains(other) == list.contains(other),
{
    toggling_flips_one(list, key, other);
    toggling_flips_one(toggled(list, key), key, other);
}

/// The places before `upto` where something holds: all of them, in order, and no
/// other.
pub open spec fn places_where(places: Seq<int>, upto: int, holds: spec_fn(int) -> bool) -> bool {
    &&& forall|j: int| 0 <= j < places.len() ==> 0 <= (#[trigger] places[j]) < upto
    &&& forall|j: int| 0 <= j < places.len() ==> holds(#[trigger] places[j])
    &&& forall|j: int, k: int|
        0 <= j < k < places.len() ==> (#[trigger] places[j]) < (#[trigger] places[k])
    &&& forall|i: int| 0 <= i < upto && #[trigger] holds(i) ==> places.contains(i)
}

/// One place more: it is among those where something holds exactly when it holds
/// there.
pub proof fn lemma_places_step(places: Seq<int>, upto: int, holds: spec_fn(int) -> bool)
    requires
        0 <= upto,
        places_where(places, upto, holds),
    ensures
        holds(upto) ==> places_where(places.push(upto), upto + 1, holds),
        !holds(upto) ==> places_where(places, upto + 1, holds),
{
    let more = places.push(upto);
    if holds(upto) {
        assert forall|i: int| 0 <= i < upto + 1 && #[trigger] holds(i) implies more.contains(i) by {
            if i < upto {
                let j = choose|j: int| 0 <= j < places.len() && places[j] == i;
                assert(more[j] == i);
            } else {
                assert(more[places.len() as int] == i);
            }
        }
    }
}

/// Trimming takes white space off the two ends and nothing else.
pub proof fn trimming_takes_off_white_space_only(text: Seq<char>)
    ensures
        exists|from: int, to: int|
            0 <= from <= to <= text.len() && trimmed(text) == #[trigger] text.subrange(from, to) && (
            forall|i: int| 0 <= i < from ==> white_space(#[trigger] text[i])) && (forall|i: int|
                to <= i < text.len() ==> white_space(#[trigger] text[i])),
{
    lemma_trim_start_drops(text);
    let start = trim_start(text);
    lemma_trim_start_is_suffix(text);
    lemma_trim_end_ends(start);
    lemma_trim_end_drops(start);
    let from = text.len() - start.len();
    let to = from + trimmed(text).len();
    assert(trimmed(text) == text.subrange(from, to));
    assert forall|i: int| to <= i < text.len() implies white_space(#[trigger] text[i]) by {
        assert(start[i - from] == text[i]);
    }
}

proof fn lemma_trim_start_drops(text: Seq<char>)
    ensures
        trim_start(text).len() <= text.len(),
        forall|i: int|
            0 <= i < text.len() - trim_start(text).len() ==> white_space(#[trigger] text[i]),
    decreases text.len(),
{
    if text.len() > 0 && white_space(text[0]) {
        lemma_trim_start_drops(text.drop_first());
        assert forall|i: int| 0 <= i < text.len() - trim_start(text).len() implies white_space(
            #[trigger] text[i],
        ) by {
            if i > 0 {
                assert(text.drop_first()[i - 1] == text[i]);
            }
        }
    }
}

proof fn lemma_trim_end_drops(text: Seq<char>)
    ensures
        forall|i: int| trim_end(text).len() <= i < text.len() ==> white_space(#[trigger] text[i]),
    decreases text.len(),
{
    if text.len() > 0 && white_space(text.last()) {
        lemma_trim_end_drops(text.drop_last());
        assert forall|i: int| trim_end(text).len() <= i < text.len() implies white_space(
            #[trigger] text[i],
        ) by {
            if i < text.len() - 1 {
                assert(text.drop_last()[i] == text[i]);
            }
        }
    }
}

/// Of the ASCII characters the space and the five that move to another column or
/// line are white, and no letter, digit or sign is.
pub proof fn ascii_white_space(c: char)
    requires
        (c as u32) < 128,
    ensures
        white_space(c) <==> c == ' ' || c == '\t' || c == '\n' || c == '\r' || c == '\u{b}' || c
            == '\u{c}',
{
}

/// White space after a text is dropped, and white space between two texts that
/// say something becomes one space; a text that holds none stays as it is.
pub proof fn squeezing_keeps_words_apart(a: Seq<char>, space: char, b: Seq<char>)
    requires
        white_space(space),
        b.len() > 0,
        !white_space(b[0]),
    ensures
        squeezed(a.push(space)) == squeezed(a),
        squeezed(a).len() > 0 ==> squeezed(a.push(space) + b) == squeezed(a).push(' ') + squeezed(b),
        squeezed(a).len() == 0 ==> squeezed(a.push(space) + b) == squeezed(b),
    decreases b.len(),
{
    assert(a.push(space).drop_last() == a);
    let all = a.push(space) + b;
    let front = b.drop_last();
    assert(all.drop_last() == a.push(space) + front);
    assert(all.last() == b.last());
    if b.len() == 1 {
        assert(front == Seq::<char>::empty());
        assert(all.drop_last() == a.push(space));
        assert(squeezed(front) == Seq::<char>::empty());
        assert(squeezed(b) == seq![b[0]]);
        assert(all[all.len() - 2] == space);
        assert(squeezed(a.push(space)) == squeezed(a));
        assert(squeezed(all.drop_last()) == squeezed(a));
        assert(!white_space(all.last()));
        if squeezed(a).len() > 0 {
            assert(squeezed(all) == squeezed(a).push(' ') + squeezed(b));
        } else {
            assert(squeezed(all) == squeezed(b));
        }
    } else {
        squeezing_keeps_words_apart(a, space, front);
        lemma_squeezed_says_something(front);
        assert(all[all.len() - 2] == b[b.len() - 2]);
        if squeezed(a).len() > 0 {
            assert(squeezed(all) == squeezed(a).push(' ') + squeezed(b));
        }
    }
}

proof fn lemma_squeezed_says_something(text: Seq<char>)
    requires
        text.len() > 0,
        !white_space(text[0]),
    ensures
        squeezed(text).len() > 0,
    decreases text.len(),
{
    if text.len() > 1 {
        lemma_squeezed_says_something(text.drop_last());
    }
}

/// A text without white space is squeezed to itself.
pub proof fn squeezing_keeps_a_word(text: Seq<char>)
    requires
        forall|i: int| 0 <= i < text.len() ==> !white_space(#[trigger] text[i]),
    ensures
        squeezed(text) == text,
    decreases text.len(),
{
    if text.len() > 0 {
        squeezing_keeps_a_word(text.drop_last());
        assert(!white_space(text[text.len() - 1]));
        if text.len() > 1 {
            assert(!white_space(text[text.len() - 2]));
        }
        assert(text.drop_last().push(text.last()) == text);
    }
}

/// A text stands in another exactly when that is something, the text, and
/// something again.
pub proof fn a_text_occurs_between_two_others(hay: Seq<char>, needle: Seq<char>)
    ensures
        occurs(hay, needle) <==> exists|before: Seq<char>, after: Seq<char>|
            hay == #[trigger] (before + needle + after),
{
    if occurs(hay, needle) {
        let at = choose|at: int| #[trigger] occurs_at(hay, needle, at);
        let before = hay.take(at);
        let after = hay.skip(at + needle.len());
        assert(hay == before + needle + after);
    }
    if exists|before: Seq<char>, after: Seq<char>| hay == #[trigger] (before + needle + after) {
        let (before, after) = choose|before: Seq<char>, after: Seq<char>|
            hay == #[trigger] (before + needle + after);
        let at = before.len() as int;
        assert(hay.subrange(at, at + needle.len()) == needle);
        assert(occurs_at(hay, needle, at));
    }
}

/// A number is written without zeros in front.
pub proof fn a_number_has_no_leading_zero(n: nat)
    ensures
        n > 0 ==> decimal(n)[0] != '0',
        decimal(0) == seq!['0'],
    decreases n,
{
    if n >= 10 {
        a_number_has_no_leading_zero(n / 10);
        lemma_decimal_len(n / 10);
        assert(decimal(n)[0] == decimal(n / 10)[0]);
    } else {
        assert(decimal(0) == seq!['0']);
    }
}

/// A number that is filled up is as long as asked for, and the same number.
pub proof fn zeros_in_front_change_nothing(n: nat, width: nat)
    ensures
        zero_padded(n, width).len() >= width,
        zero_padded(n, width).len() == (if decimal(n).len() < width {
            width
        } else {
            decimal(n).len()
        }),
        digits_value(zero_padded(n, width)) == n,
{
    lemma_decimal_digits(n);
    if decimal(n).len() < width {
        let zeros = Seq::new((width - decimal(n).len()) as nat, |i: int| '0');
        lemma_zeros_in_front(zeros, decimal(n));
    }
}

proof fn lemma_zeros_in_front(zeros: Seq<char>, digits: Seq<char>)
    requires
        forall|i: int| 0 <= i < zeros.len() ==> zeros[i] == '0',
    ensures
        digits_value(zeros + digits) == digits_value(digits),
    decreases zeros.len() + digits.len(),
{
    let all = zeros + digits;
    if digits.len() > 0 {
        lemma_zeros_in_front(zeros, digits.drop_last());
        assert(all.drop_last() == zeros + digits.drop_last());
        assert(all.last() == digits.last());
    } else if zeros.len() > 0 {
        lemma_zeros_in_front(zeros.drop_last(), digits);
        assert(all == zeros);
        assert(zeros.drop_last() + digits == zeros.drop_last());
        assert(zeros[zeros.len() - 1] == '0');
    } else {
        assert(all == digits);
    }
}

/// Only digits read as a number, with one plus sign in front of them at most, and
/// no number past the limit does.
pub proof fn only_digits_read_as_a_number(text: Seq<char>, max: nat)
    requires
        parsed(text, max) is Some,
    ensures
        parsed(text, max).unwrap() <= max,
        text.len() > 0,
        forall|i: int|
            0 <= i < text.len() ==> ('0' <= #[trigger] text[i] && text[i] <= '9') || (i == 0
                && text[i] == '+' && text.len() > 1),
{
    let digits = unsigned_digits(text);
    assert forall|i: int| 0 <= i < text.len() implies ('0' <= #[trigger] text[i] && text[i] <= '9')
        || (i == 0 && text[i] == '+' && text.len() > 1) by {
        if text[0] == '+' {
            if i > 0 {
                assert(is_digit(digits[i - 1]));
            }
        } else {
            assert(is_digit(digits[i]));
        }
    }
}

/// Each digit more is ten times what was read, and the digit.
pub proof fn a_digit_more_is_ten_times_as_much(digits: Seq<char>, d: nat, max: nat)
    requires
        d < 10,
        parsed(digits, max) is Some,
        parsed(digits, max).unwrap() * 10 + d <= max,
    ensures
        parsed(digits.push((48 + d) as char), max) == Some(parsed(digits, max).unwrap() * 10 + d),
{
    let all = digits.push((48 + d) as char);
    let inner = unsigned_digits(digits);
    let outer = unsigned_digits(all);
    assert(digits.len() > 0);
    assert(outer == inner.push((48 + d) as char));
    assert(outer.drop_last() == inner);
    assert(digits_value(outer) == digits_value(inner) * 10 + d);
}

/// What is clipped is the beginning of the text: all of it where it is short
/// enough, and as many characters as asked for where it is not.
pub proof fn clipping_keeps_the_beginning(text: Seq<char>, limit: nat)
    ensures
        clipped(text, limit as int).len() == (if text.len() < limit {
            text.len()
        } else {
            limit
        }),
        forall|i: int|
            0 <= i < clipped(text, limit as int).len() ==> #[trigger] clipped(
                text,
                limit as int,
            )[i] == text[i],
{
}

/// The text there is another one.
pub open spec fn is_other(list: Seq<Seq<char>>, key: Seq<char>) -> spec_fn(int) -> bool {
    |i: int| list[i] != key
}

proof fn lemma_without_in_order(list: Seq<Seq<char>>, key: Seq<char>) -> (places: Seq<int>)
    ensures
        places_where(places, list.len() as int, is_other(list, key)),
        without(list, key) == Seq::new(places.len(), |j: int| list[places[j]]),
    decreases list.len(),
{
    let holds = is_other(list, key);
    if list.len() == 0 {
        let places = Seq::<int>::empty();
        assert(without(list, key) == Seq::new(places.len(), |j: int| list[places[j]]));
        places
    } else {
        let front = list.drop_last();
        let before = lemma_without_in_order(front, key);
        let n = front.len() as int;
        assert forall|i: int| 0 <= i < n && #[trigger] holds(i) implies before.contains(i) by {
            assert(is_other(front, key)(i));
        }
        assert forall|j: int| 0 <= j < before.len() implies holds(#[trigger] before[j]) by {
            assert(is_other(front, key)(before[j]));
        }
        assert(places_where(before, n, holds));
        lemma_places_step(before, n, holds);
        let places = if list.last() == key {
            before
        } else {
            before.push(n)
        };
        assert(without(list, key) == Seq::new(places.len(), |j: int| list[places[j]]));
        places
    }
}

/// Toggling a text in puts it last; toggling one out leaves the others in their
/// order.
pub proof fn toggling_keeps_the_order(list: Seq<Seq<char>>, key: Seq<char>)
    ensures
        !list.contains(key) ==> {
            &&& toggled(list, key).len() == list.len() + 1
            &&& toggled(list, key).last() == key
            &&& toggled(list, key).drop_last() == list
        },
        list.contains(key) ==> exists|places: Seq<int>|
            #[trigger] places_where(places, list.len() as int, is_other(list, key))
                && toggled(list, key) == Seq::new(places.len(), |j: int| list[places[j]]),
{
    let places = lemma_without_in_order(list, key);
    assert(list.push(key).drop_last() == list);
}

/// Joining two runs of lines puts one line break between what each comes to.
pub proof fn lines_are_joined_by_line_breaks(a: Seq<Seq<char>>, b: Seq<Seq<char>>)
    requires
        a.len() > 0,
        b.len() > 0,
    ensures
        joined(a + b) == joined(a).push('\n') + joined(b),
        joined(seq![a[0]]) == a[0],
    decreases b.len(),
{
    let all = a + b;
    assert(all.drop_last() == a + b.drop_last());
    assert(all.last() == b.last());
    if b.len() == 1 {
        assert(all.drop_last() == a);
        assert(joined(all) == joined(a).push('\n') + joined(b));
    } else {
        lines_are_joined_by_line_breaks(a, b.drop_last());
        assert(joined(all) == joined(a).push('\n') + joined(b));
    }
}

/// Only the letters of the alphabet have another case: each in upper case is 32
/// before the same in lower case.
pub proof fn ascii_case_is_of_letters_only(text: Seq<char>, i: int)
    requires
        0 <= i < text.len(),
    ensures
        ascii_lowercase(text).len() == text.len(),
        ascii_uppercase(text).len() == text.len(),
        ascii_lowercase(text)[i] as int == (if 65 <= text[i] as int <= 90 {
            text[i] as int + 32
        } else {
            text[i] as int
        }),
        ascii_uppercase(text)[i] as int == (if 97 <= text[i] as int <= 122 {
            text[i] as int - 32
        } else {
            text[i] as int
        }),
{
}

/// One thing is named in the singular, and any other number of them in the plural.
pub proof fn only_one_is_singular(n: nat)
    ensures
        n == 1 ==> plural_s(n).len() == 0,
        n != 1 ==> plural_s(n) == seq!['s'],
{
    reveal_strlit("");
    reveal_strlit("s");
}

/// A number below zero is written as its opposite behind a minus, and no other
/// number has one.
pub proof fn a_minus_is_for_numbers_below_zero(n: nat)
    ensures
        signed_decimal(n as int) == decimal(n),
        n > 0 ==> signed_decimal(-(n as int)) == seq!['-'] + decimal(n),
        decimal(n)[0] != '-',
{
    a_number_has_no_leading_zero(n);
    lemma_decimal_begins(n);
}

proof fn lemma_decimal_begins(n: nat)
    ensures
        decimal(n).len() > 0,
        '0' as int <= decimal(n)[0] as int <= '9' as int,
    decreases n,
{
    if n >= 10 {
        lemma_decimal_begins(n / 10);
    }
}

/// A text begins with another exactly when it is that one and something more.
pub proof fn a_text_begins_with_its_beginning(prefix: Seq<char>, rest: Seq<char>, text: Seq<char>)
    ensures
        begins(prefix + rest, prefix),
        begins(text, prefix) ==> text == prefix + text.skip(prefix.len() as int),
{
    assert((prefix + rest).subrange(0, prefix.len() as int) == prefix);
    if begins(text, prefix) {
        assert(text.subrange(0, prefix.len() as int) == prefix);
        assert(text == prefix + text.skip(prefix.len() as int));
    }
}

} // verus!
