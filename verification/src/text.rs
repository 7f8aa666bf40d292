//! Text: what trimming, searching and UTF-8 decoding mean, and the functions
//! of the standard library that do them.

use vstd::prelude::*;
use vstd::string::*;
use vstd::utf8::*;

verus! {

/// Whether `c` has the Unicode property `White_Space`.
pub open spec fn is_white_space(c: char) -> bool {
    ||| '\u{9}' <= c <= '\u{d}'
    ||| c == ' '
    ||| c == '\u{85}'
    ||| c == '\u{a0}'
    ||| c == '\u{1680}'
    ||| '\u{2000}' <= c <= '\u{200a}'
    ||| c == '\u{2028}'
    ||| c == '\u{2029}'
    ||| c == '\u{202f}'
    ||| c == '\u{205f}'
    ||| c == '\u{3000}'
}

/// `s` without its leading white space.
pub open spec fn trimmed_start(s: Seq<char>) -> Seq<char>
    decreases s.len(),
{
    if s.len() > 0 && is_white_space(s[0]) {
        trimmed_start(s.drop_first())
    } else {
        s
    }
}

/// `s` without its trailing white space.
pub open spec fn trimmed_end(s: Seq<char>) -> Seq<char>
    decreases s.len(),
{
    if s.len() > 0 && is_white_space(s.last()) {
        trimmed_end(s.drop_last())
    } else {
        s
    }
}

/// `s` without its leading and trailing white space.
pub open spec fn trimmed(s: Seq<char>) -> Seq<char> {
    trimmed_end(trimmed_start(s))
}

/// Whether nothing is left of `s` once it is trimmed.
pub open spec fn is_blank(s: Seq<char>) -> bool {
    trimmed(s).len() == 0
}

/// Whether `needle` stands at index `i` of `hay`.
pub open spec fn occurs_at<T>(hay: Seq<T>, needle: Seq<T>, i: int) -> bool {
    0 <= i <= hay.len() - needle.len() && hay.subrange(i, i + needle.len()) == needle
}

/// Whether `needle` stands somewhere in `hay`.
pub open spec fn contains<T>(hay: Seq<T>, needle: Seq<T>) -> bool {
    exists|i: int| occurs_at(hay, needle, i)
}

/// The decimal digit of `n`.
pub open spec fn digit(n: nat) -> char {
    if n == 0 {
        '0'
    } else if n == 1 {
        '1'
    } else if n == 2 {
        '2'
    } else if n == 3 {
        '3'
    } else if n == 4 {
        '4'
    } else if n == 5 {
        '5'
    } else if n == 6 {
        '6'
    } else if n == 7 {
        '7'
    } else if n == 8 {
        '8'
    } else {
        '9'
    }
}

/// `n` in decimal.
pub open spec fn decimal(n: nat) -> Seq<char>
    decreases n,
{
    if n < 10 {
        seq![digit(n)]
    } else {
        decimal(n / 10).push(digit(n % 10))
    }
}

/// The texts one behind the other, with `sep` between each two.
pub open spec fn joined(parts: Seq<Seq<char>>, sep: Seq<char>) -> Seq<char>
    decreases parts.len(),
{
    if parts.len() == 0 {
        Seq::empty()
    } else if parts.len() == 1 {
        parts[0]
    } else {
        joined(parts.drop_last(), sep) + sep + parts.last()
    }
}

/// How many bytes at the head of `bytes`, which do not begin with a character,
/// `String::from_utf8_lossy` replaces by one U+FFFD.
pub uninterp spec fn replaced_len(bytes: Seq<u8>) -> nat;

/// The text of `bytes` where U+FFFD stands for what is not valid UTF-8: one for
/// each run of bytes that does not encode a character.
pub open spec fn repaired_text(bytes: Seq<u8>) -> Seq<char>
    decreases bytes.len(),
{
    if bytes.len() == 0 {
        Seq::empty()
    } else if valid_first_scalar(bytes) {
        seq![decode_first_scalar(bytes) as char] + repaired_text(pop_first_scalar(bytes))
    } else {
        let n = if replaced_len(bytes) < 1 {
            1nat
        } else if replaced_len(bytes) > bytes.len() {
            bytes.len()
        } else {
            replaced_len(bytes)
        };
        seq!['\u{fffd}'] + repaired_text(bytes.skip(n as int))
    }
}

/// The text of `bytes`: what they encode where they are valid UTF-8, and the
/// repaired text where they are not.
pub open spec fn lossy_text(bytes: Seq<u8>) -> Seq<char> {
    if valid_utf8(bytes) {
        decode_utf8(bytes)
    } else {
        repaired_text(bytes)
    }
}

/// What `str::to_lowercase` makes of `s`.
pub uninterp spec fn lowercase_text(s: Seq<char>) -> Seq<char>;

/// `str::trim`: the string slice without leading and trailing characters of
/// the Unicode property `White_Space`.
pub assume_specification[ str::trim ](s: &str) -> (r: &str)
    ensures
        r@ == trimmed(s@),
;

/// `str::to_lowercase`: the Unicode lower-case form of the text, which
/// [`lowercase_text`] names.
pub assume_specification[ str::to_lowercase ](s: &str) -> (r: String)
    ensures
        r@ == lowercase_text(s@),
;

/// `str::contains` with a string slice as the pattern: whether the pattern is
/// a sub-slice of the text.
#[verifier::external_body]
pub(crate) fn has_text(hay: &str, needle: &str) -> (r: bool)
    ensures
        r == contains(hay@, needle@),
{
    hay.contains(needle)
}

/// `str::strip_prefix` with a string slice as the pattern: the text after the
/// prefix where the text begins with it, and `None` where it does not.
#[verifier::external_body]
pub(crate) fn without_prefix<'a>(s: &'a str, prefix: &str) -> (r: Option<&'a str>)
    ensures
        r is Some <==> prefix@.is_prefix_of(s@),
        r matches Some(rest) ==> rest@ == s@.skip(prefix@.len() as int),
{
    s.strip_prefix(prefix)
}

/// `String::from_utf8`: the text that the bytes encode where they are valid
/// UTF-8, and an error, here `None`, where they are not.
#[verifier::external_body]
pub(crate) fn utf8_text(bytes: Vec<u8>) -> (r: Option<String>)
    ensures
        r is Some <==> valid_utf8(bytes@),
        r matches Some(s) ==> s@ == decode_utf8(bytes@),
{
    String::from_utf8(bytes).ok()
}

/// `String::from_utf8_lossy`: the text that the bytes encode, with U+FFFD in the
/// place of each invalid part. How far such a part reaches, which is at least
/// one byte and not beyond the end, is left to the name [`replaced_len`].
#[verifier::external_body]
pub(crate) fn utf8_lossy(bytes: &[u8]) -> (r: String)
    ensures
        valid_utf8(bytes@) ==> r@ == decode_utf8(bytes@),
        !valid_utf8(bytes@) ==> r@ == repaired_text(bytes@),
        bytes@.len() > 0 && !valid_first_scalar(bytes@) ==> r@ == seq!['\u{fffd}']
            + repaired_text(bytes@.skip(replaced_len(bytes@) as int)),
{
    String::from_utf8_lossy(bytes).into_owned()
}

/// A text that is trimmed stays as it is when it is trimmed again.
pub proof fn trimming_is_idempotent(s: Seq<char>)
    ensures
        trimmed(trimmed(s)) == trimmed(s),
{
    let front = trimmed_start(s);
    let both = trimmed_end(front);
    lemma_trimmed_start(s);
    lemma_trimmed_end(front);
    if both.len() > 0 {
        assert(both[0] == front[0]);
    }
    assert(trimmed_start(both) == both);
    assert(trimmed_end(both) == both);
}

/// What is left of a text begins with no white space.
proof fn lemma_trimmed_start(s: Seq<char>)
    ensures
        trimmed_start(s).len() > 0 ==> !is_white_space(trimmed_start(s)[0]),
    decreases s.len(),
{
    if s.len() > 0 && is_white_space(s[0]) {
        lemma_trimmed_start(s.drop_first());
    }
}

/// What is left of a text ends with no white space, and is its beginning.
proof fn lemma_trimmed_end(s: Seq<char>)
    ensures
        trimmed_end(s).len() > 0 ==> !is_white_space(trimmed_end(s).last()),
        trimmed_end(s).len() <= s.len(),
        trimmed_end(s) == s.take(trimmed_end(s).len() as int),
    decreases s.len(),
{
    if s.len() > 0 && is_white_space(s.last()) {
        lemma_trimmed_end(s.drop_last());
        let n = trimmed_end(s).len() as int;
        assert(s.drop_last().take(n) =~= s.take(n));
    } else {
        assert(s.take(s.len() as int) =~= s);
    }
}

/// Valid bytes need no repair.
proof fn lemma_repairs_nothing(bytes: Seq<u8>)
    requires
        valid_utf8(bytes),
    ensures
        repaired_text(bytes) == decode_utf8(bytes),
    decreases bytes.len(),
{
    if bytes.len() > 0 {
        lemma_repairs_nothing(pop_first_scalar(bytes));
    }
}

/// A repaired text shows where it was repaired: it holds U+FFFD.
pub proof fn repair_is_shown(bytes: Seq<u8>)
    requires
        !valid_utf8(bytes),
    ensures
        repaired_text(bytes).contains('\u{fffd}'),
    decreases bytes.len(),
{
    let text = repaired_text(bytes);
    if valid_first_scalar(bytes) {
        let rest = pop_first_scalar(bytes);
        repair_is_shown(rest);
        let i = choose|i: int|
            0 <= i < repaired_text(rest).len() && repaired_text(rest)[i] == '\u{fffd}';
        assert(text[i + 1] == '\u{fffd}');
    } else {
        assert(text[0] == '\u{fffd}');
    }
}

/// An ASCII character of the text of bytes is one of the bytes.
pub proof fn ascii_is_in_bytes(bytes: Seq<u8>, i: int)
    requires
        0 <= i < lossy_text(bytes).len(),
        lossy_text(bytes)[i] <= '\u{7f}',
    ensures
        bytes.contains(lossy_text(bytes)[i] as u8),
{
    if valid_utf8(bytes) {
        lemma_repairs_nothing(bytes);
    }
    lemma_ascii_in_repaired(bytes, i);
}

/// The bytes of a first character, taken alone.
proof fn lemma_first_scalar(bytes: Seq<u8>)
    requires
        bytes.len() > 0,
        valid_first_scalar(bytes),
    ensures
        valid_utf8(take_first_scalar(bytes)),
        take_first_scalar(bytes).len() > 0,
        take_first_scalar(bytes)[0] == bytes[0],
        decode_first_scalar(take_first_scalar(bytes)) == decode_first_scalar(bytes),
        take_first_scalar(take_first_scalar(bytes)) == take_first_scalar(bytes),
{
    let head = take_first_scalar(bytes);
    let n = length_of_first_scalar(bytes);
    assert(1 <= n <= bytes.len());
    assert(forall|k: int| 0 <= k < n ==> #[trigger] head[k] == bytes[k]);
    assert(head[0] == bytes[0]);
    if n >= 2 {
        assert(head[1] == bytes[1]);
    }
    if n >= 3 {
        assert(head[2] == bytes[2]);
    }
    if n >= 4 {
        assert(head[3] == bytes[3]);
    }
    assert(length_of_first_scalar(head) == n);
    assert(valid_first_scalar(head));
    assert(pop_first_scalar(head) =~= Seq::empty());
    assert(valid_utf8(pop_first_scalar(head)));
    assert(take_first_scalar(head) =~= head);
}

/// An ASCII character of a repaired text is one of the bytes.
proof fn lemma_ascii_in_repaired(bytes: Seq<u8>, i: int)
    requires
        0 <= i < repaired_text(bytes).len(),
        repaired_text(bytes)[i] <= '\u{7f}',
    ensures
        bytes.contains(repaired_text(bytes)[i] as u8),
    decreases bytes.len(),
{
    let text = repaired_text(bytes);
    let c = text[i];
    if valid_first_scalar(bytes) {
        let rest = pop_first_scalar(bytes);
        if i == 0 {
            let head = take_first_scalar(bytes);
            let v = c as u32;
            lemma_first_scalar(bytes);
            decode_utf8_first_scalar(head);
            assert(v <= 0x7f ==> (v & 0x7f) as u8 == v as u8) by (bit_vector);
            assert(bytes[0] == head[0]);
        } else {
            assert(repaired_text(rest)[i - 1] == c);
            lemma_ascii_in_repaired(rest, i - 1);
            let j = choose|j: int| 0 <= j < rest.len() && rest[j] == c as u8;
            assert(bytes[j + length_of_first_scalar(bytes)] == c as u8);
        }
    } else {
        let n = if replaced_len(bytes) < 1 {
            1nat
        } else if replaced_len(bytes) > bytes.len() {
            bytes.len()
        } else {
            replaced_len(bytes)
        };
        let rest = bytes.skip(n as int);
        assert(i > 0);
        assert(repaired_text(rest)[i - 1] == c);
        lemma_ascii_in_repaired(rest, i - 1);
        let j = choose|j: int| 0 <= j < rest.len() && rest[j] == c as u8;
        assert(bytes[j + n] == c as u8);
    }
}

/// An ASCII byte of valid bytes is a character of their text.
pub proof fn ascii_is_in_text(bytes: Seq<u8>, j: int)
    requires
        valid_utf8(bytes),
        0 <= j < bytes.len(),
        bytes[j] < 0x80,
    ensures
        decode_utf8(bytes).contains(bytes[j] as char),
    decreases bytes.len(),
{
    let text = decode_utf8(bytes);
    let rest = pop_first_scalar(bytes);
    let n = length_of_first_scalar(bytes);
    if j < n {
        let b = bytes[0];
        assert(j == 0);
        assert(b <= 0x7f ==> (b & 0x7f) == b) by (bit_vector);
        assert(text[0] == b as char);
    } else {
        assert(rest[j - n] == bytes[j]);
        ascii_is_in_text(rest, j - n);
        let i = choose|i: int|
            0 <= i < decode_utf8(rest).len() && decode_utf8(rest)[i] == bytes[j] as char;
        assert(text[i + 1] == bytes[j] as char);
    }
}

/// A blank text holds white space only.
pub proof fn blank_is_white(s: Seq<char>, i: int)
    requires
        is_blank(s),
        0 <= i < s.len(),
    ensures
        is_white_space(s[i]),
    decreases s.len(),
{
    let front = trimmed_start(s);
    lemma_trimmed_start(s);
    if front.len() > 0 {
        lemma_trimmed_away(front, 0);
    }
    lemma_trimmed_start_away(s, i);
}

/// Where a text is trimmed away from its end, it holds white space only.
proof fn lemma_trimmed_away(s: Seq<char>, i: int)
    requires
        trimmed_end(s).len() == 0,
        0 <= i < s.len(),
    ensures
        is_white_space(s[i]),
    decreases s.len(),
{
    if i < s.len() - 1 {
        lemma_trimmed_away(s.drop_last(), i);
    }
}

/// Where a text is trimmed away from its start, it holds white space only.
proof fn lemma_trimmed_start_away(s: Seq<char>, i: int)
    requires
        trimmed_start(s).len() == 0,
        0 <= i < s.len(),
    ensures
        is_white_space(s[i]),
    decreases s.len(),
{
    if i > 0 {
        lemma_trimmed_start_away(s.drop_first(), i - 1);
    }
}

/// A trimmed text holds no character that the text does not hold.
pub(crate) proof fn lemma_trimmed_part(s: Seq<char>, i: int)
    requires
        0 <= i < trimmed(s).len(),
    ensures
        s.contains(trimmed(s)[i]),
{
    let front = trimmed_start(s);
    lemma_trimmed_end(front);
    assert(trimmed(s)[i] == front[i]);
    lemma_trimmed_start_part(s, i);
}

/// What is left of a text from its start on, it held.
proof fn lemma_trimmed_start_part(s: Seq<char>, i: int)
    requires
        0 <= i < trimmed_start(s).len(),
    ensures
        s.contains(trimmed_start(s)[i]),
    decreases s.len(),
{
    if s.len() > 0 && is_white_space(s[0]) {
        let tail = s.drop_first();
        lemma_trimmed_start_part(tail, i);
        let j = choose|j: int| 0 <= j < tail.len() && tail[j] == trimmed_start(tail)[i];
        assert(s[j + 1] == tail[j]);
    } else {
        assert(s[i] == trimmed_start(s)[i]);
    }
}

/// What a part of a sequence contains, the whole contains.
pub(crate) proof fn lemma_part_contains<T>(hay: Seq<T>, a: int, b: int, needle: Seq<T>)
    requires
        0 <= a <= b <= hay.len(),
        contains(hay.subrange(a, b), needle),
    ensures
        contains(hay, needle),
{
    let part = hay.subrange(a, b);
    let i = choose|i: int| occurs_at(part, needle, i);
    assert(part.subrange(i, i + needle.len()) =~= hay.subrange(a + i, a + i + needle.len()));
    assert(occurs_at(hay, needle, a + i));
}

/// UTF-8 encodes a text piece by piece.
pub(crate) proof fn lemma_encode_concat(a: Seq<char>, b: Seq<char>)
    ensures
        encode_utf8(a + b) == encode_utf8(a) + encode_utf8(b),
    decreases a.len(),
{
    if a.len() == 0 {
        assert(a + b =~= b);
        assert(encode_utf8(a) + encode_utf8(b) =~= encode_utf8(b));
    } else {
        assert((a + b).drop_first() =~= a.drop_first() + b);
        lemma_encode_concat(a.drop_first(), b);
        let first = encode_scalar(a[0] as u32);
        assert(encode_utf8(a + b) =~= first + (encode_utf8(a.drop_first()) + encode_utf8(b)));
        assert(encode_utf8(a) + encode_utf8(b) =~= encode_utf8(a + b));
    }
}

/// Where a text contains another, its bytes contain the other's.
pub(crate) proof fn lemma_encoded_contains(hay: Seq<char>, needle: Seq<char>)
    requires
        contains(hay, needle),
    ensures
        contains(encode_utf8(hay), encode_utf8(needle)),
{
    let i = choose|i: int| occurs_at(hay, needle, i);
    let before = hay.take(i);
    let after = hay.skip((i + needle.len()) as int);
    assert(hay =~= before + needle + after);
    lemma_encode_concat(before + needle, after);
    lemma_encode_concat(before, needle);
    let at = encode_utf8(before).len() as int;
    let bytes = encode_utf8(hay);
    let inner = encode_utf8(needle);
    assert(bytes.subrange(at, at + inner.len()) =~= inner);
    assert(occurs_at(bytes, inner, at));
}

/// A text whose bytes begin with those of an ASCII text begins with it.
proof fn lemma_ascii_prefix(bytes: Seq<u8>, word: Seq<char>)
    requires
        valid_utf8(bytes),
        is_ascii_chars(word),
        encode_utf8(word).is_prefix_of(bytes),
    ensures
        word.is_prefix_of(decode_utf8(bytes)),
    decreases word.len(),
{
    if word.len() > 0 {
        let code = encode_utf8(word);
        let tail = word.drop_first();
        is_ascii_chars_encode_utf8(word);
        is_ascii_chars_encode_utf8(tail);
        assert(code.drop_first() =~= encode_utf8(tail)) by {
            assert(code =~= encode_scalar(word[0] as u32) + encode_utf8(tail));
        }
        assert(bytes[0] == code[0]);
        assert(code[0] == word[0] as u8);
        assert(is_leading_byte_width_1(bytes[0]));
        let rest = pop_first_scalar(bytes);
        assert(rest =~= bytes.drop_first());
        assert(encode_utf8(tail).is_prefix_of(rest)) by {
            assert forall|k: int| 0 <= k < encode_utf8(tail).len() implies encode_utf8(tail)[k]
                == rest[k] by {
                assert(code[k + 1] == bytes[k + 1]);
            }
            assert(encode_utf8(tail) =~= rest.subrange(0, encode_utf8(tail).len() as int));
        }
        lemma_ascii_prefix(rest, tail);
        let text = decode_utf8(bytes);
        assert(text[0] == word[0]);
        assert(text.drop_first() =~= decode_utf8(rest));
        assert forall|k: int| 0 <= k < word.len() implies word[k] == text[k] by {
            if k > 0 {
                assert(tail[k - 1] == decode_utf8(rest)[k - 1]);
            }
        }
        assert(word =~= text.subrange(0, word.len() as int));
    }
}

/// Where the bytes of a text contain those of an ASCII text, the text
/// contains it.
pub(crate) proof fn lemma_decoded_contains(hay: Seq<char>, needle: Seq<char>)
    requires
        is_ascii_chars(needle),
        needle.len() > 0,
        contains(encode_utf8(hay), encode_utf8(needle)),
    ensures
        contains(hay, needle),
{
    let bytes = encode_utf8(hay);
    let code = encode_utf8(needle);
    let i = choose|i: int| occurs_at(bytes, code, i);
    encode_utf8_valid_utf8(hay);
    encode_utf8_decode_utf8(hay);
    is_ascii_chars_encode_utf8(needle);
    let found = bytes.subrange(i, i + code.len());
    assert(bytes[i] == found[0]);
    assert(code[0] == needle[0] as u8);
    assert(is_leading_byte_width_1(bytes[i]));
    is_char_boundary_iff_not_is_continuation_byte(bytes, i);
    valid_utf8_split(bytes, i);
    decode_utf8_split(bytes, i);
    let head = decode_utf8(bytes.subrange(0, i));
    let behind = bytes.subrange(i, bytes.len() as int);
    assert(code =~= behind.subrange(0, code.len() as int));
    lemma_ascii_prefix(behind, needle);
    let text = decode_utf8(behind);
    let at = head.len() as int;
    assert(hay.subrange(at, at + needle.len()) =~= text.subrange(0, needle.len() as int));
    assert(occurs_at(hay, needle, at));
}

/// The characters of `s`.
pub(crate) fn chars_of(s: &str) -> (r: Vec<char>)
    ensures
        r@ == s@,
{
    let mut out: Vec<char> = Vec::new();
    for c in it: s.chars()
        invariant
            out@ =~= it.seq().take(it.index() as int),
            it.seq() == s@,
    {
        out.push(c);
    }
    out
}

/// The decimal digit of `n`, as a text.
fn digit_text(n: u64) -> (r: &'static str)
    requires
        n < 10,
    ensures
        r@ == seq![digit(n as nat)],
{
    let r: &'static str = if n == 0 {
        "0"
    } else if n == 1 {
        "1"
    } else if n == 2 {
        "2"
    } else if n == 3 {
        "3"
    } else if n == 4 {
        "4"
    } else if n == 5 {
        "5"
    } else if n == 6 {
        "6"
    } else if n == 7 {
        "7"
    } else if n == 8 {
        "8"
    } else {
        "9"
    };
    proof {
        reveal_strlit("0");
        reveal_strlit("1");
        reveal_strlit("2");
        reveal_strlit("3");
        reveal_strlit("4");
        reveal_strlit("5");
        reveal_strlit("6");
        reveal_strlit("7");
        reveal_strlit("8");
        reveal_strlit("9");
    }
    assert(r@ =~= seq![digit(n as nat)]);
    r
}

/// `n` in decimal.
pub fn decimal_text(n: u64) -> (r: String)
    ensures
        r@ == decimal(n as nat),
    decreases n,
{
    if n < 10 {
        digit_text(n).to_owned()
    } else {
        let r: String = decimal_text(n / 10).concat(digit_text(n % 10));
        assert(r@ =~= decimal(n as nat));
        r
    }
}

/// The texts one behind the other, with `sep` between each two.
pub fn join_texts(parts: &Vec<String>, sep: &str) -> (r: String)
    ensures
        r@ == joined(parts.deep_view(), sep@),
{
    let ghost all = parts.deep_view();
    let mut out: String = String::new();
    let mut i: usize = 0;
    while i < parts.len()
        invariant
            i <= parts.len(),
            all == parts.deep_view(),
            out@ == joined(all.take(i as int), sep@),
        decreases parts.len() - i,
    {
        let ghost next = all.take(i + 1);
        assert(next.drop_last() =~= all.take(i as int));
        assert(next.last() == parts[i as int]@);
        if i > 0 {
            out.append(sep);
        }
        out.append(parts[i].as_str());
        assert(out@ =~= joined(next, sep@));
        i = i + 1;
    }
    assert(all.take(i as int) =~= all);
    out
}

/// Whether the two texts are equal.
pub(crate) fn same_text(a: &str, b: &str) -> (r: bool)
    ensures
        r == (a@ == b@),
{
    let x: &[u8] = a.as_bytes();
    let y: &[u8] = b.as_bytes();
    proof {
        encode_utf8_decode_utf8(a@);
        encode_utf8_decode_utf8(b@);
    }
    if x.len() != y.len() {
        return false;
    }
    let mut i: usize = 0;
    while i < x.len()
        invariant
            i <= x.len(),
            x.len() == y.len(),
            x@ == encode_utf8(a@),
            y@ == encode_utf8(b@),
            forall|k: int| 0 <= k < i ==> x@[k] == y@[k],
        decreases x.len() - i,
    {
        if x[i] != y[i] {
            return false;
        }
        i = i + 1;
    }
    assert(x@ =~= y@);
    true
}

/// Of a text everything is left but the white space at its ends: what is left
/// stands in the text, with white space only in front of it and behind it, and
/// neither begins nor ends with white space.
pub proof fn trimming_takes_white_space_only(s: Seq<char>) -> (r: (int, int))
    ensures
        0 <= r.0 <= r.1 <= s.len(),
        trimmed(s) == s.subrange(r.0, r.1),
        forall|i: int| 0 <= i < r.0 ==> is_white_space(#[trigger] s[i]),
        forall|i: int| r.1 <= i < s.len() ==> is_white_space(#[trigger] s[i]),
        r.0 < r.1 ==> !is_white_space(s[r.0]) && !is_white_space(s[r.1 - 1]),
{
    let front = trimmed_start(s);
    let a = lemma_start_is_skipped(s);
    lemma_trimmed_start(s);
    lemma_trimmed_end(front);
    lemma_end_is_white(front);
    let b = a + trimmed(s).len();
    assert(trimmed(s) =~= s.subrange(a, b));
    assert forall|i: int| b <= i < s.len() implies is_white_space(#[trigger] s[i]) by {
        assert(front[i - a] == s[i]);
    }
    if a < b {
        assert(s[a] == front[0]);
        assert(s[b - 1] == trimmed(s).last());
    }
    (a, b)
}

/// The white space in front of a text is skipped.
proof fn lemma_start_is_skipped(s: Seq<char>) -> (a: int)
    ensures
        0 <= a <= s.len(),
        trimmed_start(s) == s.skip(a),
        forall|i: int| 0 <= i < a ==> is_white_space(#[trigger] s[i]),
    decreases s.len(),
{
    if s.len() > 0 && is_white_space(s[0]) {
        let tail = s.drop_first();
        let a = lemma_start_is_skipped(tail);
        assert(tail.skip(a) =~= s.skip(a + 1));
        assert forall|i: int| 0 <= i < a + 1 implies is_white_space(#[trigger] s[i]) by {
            if i > 0 {
                assert(tail[i - 1] == s[i]);
            }
        }
        a + 1
    } else {
        assert(s.skip(0) =~= s);
        0
    }
}

/// Behind what is left of a text, there was white space only.
proof fn lemma_end_is_white(s: Seq<char>)
    ensures
        forall|i: int| trimmed_end(s).len() <= i < s.len() ==> is_white_space(#[trigger] s[i]),
    decreases s.len(),
{
    if s.len() > 0 && is_white_space(s.last()) {
        lemma_end_is_white(s.drop_last());
        assert forall|i: int| trimmed_end(s).len() <= i < s.len() implies is_white_space(
            #[trigger] s[i],
        ) by {
            if i < s.len() - 1 {
                assert(s.drop_last()[i] == s[i]);
            }
        }
    }
}

/// White space round a text is trimmed away, and the text is not, where it
/// neither begins nor ends with white space.
pub proof fn white_space_is_trimmed(before: Seq<char>, s: Seq<char>, after: Seq<char>)
    requires
        forall|i: int| 0 <= i < before.len() ==> is_white_space(#[trigger] before[i]),
        forall|i: int| 0 <= i < after.len() ==> is_white_space(#[trigger] after[i]),
        s.len() > 0 ==> !is_white_space(s[0]) && !is_white_space(s.last()),
    ensures
        trimmed(before + s + after) == s,
        is_blank(before + s + after) <==> s.len() == 0,
{
    let whole = before + s + after;
    let (a, b) = trimming_takes_white_space_only(whole);
    let n = before.len() as int;
    let m = n + s.len();
    if s.len() > 0 {
        assert(whole[n] == s[0]);
        assert(whole[m - 1] == s.last());
        assert(a <= n < b && m <= b);
        if a < n {
            assert(whole[a] == before[a]);
        }
        if b > m {
            assert(whole[b - 1] == after[b - 1 - m]);
        }
        assert(whole.subrange(a, b) =~= s);
    } else if a < b {
        if a < n {
            assert(whole[a] == before[a]);
        } else {
            assert(whole[a] == after[a - n]);
        }
    }
}

/// Which characters are white space: of ASCII the tab, the line feed, the
/// vertical tab, the form feed, the carriage return and the space, and seventeen
/// more, by their codes.
pub proof fn white_space_characters(c: char)
    ensures
        c <= '\u{7f}' ==> (is_white_space(c) <==> c == '\t' || c == '\n' || c == '\u{b}' || c
            == '\u{c}' || c == '\r' || c == ' '),
        c > '\u{7f}' ==> (is_white_space(c) <==> c as int == 0x85 || c as int == 0xa0 || c as int
            == 0x1680 || 0x2000 <= c as int <= 0x200a || c as int == 0x2028 || c as int == 0x2029
            || c as int == 0x202f || c as int == 0x205f || c as int == 0x3000),
{
}

/// A text holds what stands between any other two, and where it holds
/// something, that stands between two others.
pub proof fn contained_text_stands_between(hay: Seq<char>, needle: Seq<char>)
    ensures
        contains(hay, needle) <==> exists|before: Seq<char>, after: Seq<char>|
            hay == #[trigger] (before + needle + after),
{
    if contains(hay, needle) {
        let i = choose|i: int| occurs_at(hay, needle, i);
        let before = hay.take(i);
        let after = hay.skip((i + needle.len()) as int);
        assert(hay =~= before + needle + after);
    }
    if exists|before: Seq<char>, after: Seq<char>| hay == #[trigger] (before + needle + after) {
        let (before, after) = choose|before: Seq<char>, after: Seq<char>|
            hay == #[trigger] (before + needle + after);
        let n = before.len() as int;
        assert(hay.subrange(n, n + needle.len()) =~= needle);
        assert(occurs_at(hay, needle, n));
    }
}

/// The text of the bytes of a text is that text.
pub proof fn encoded_text_is_read(s: Seq<char>)
    ensures
        lossy_text(encode_utf8(s)) == s,
{
    encode_utf8_valid_utf8(s);
    encode_utf8_decode_utf8(s);
}

/// A number in decimal: below ten it is its digit, and one digit more behind a
/// number stands for ten times that number and the digit.
pub proof fn decimal_digits(n: u64, last: u64, r: String, longer: String, single: String)
    requires
        0 < n <= (u64::MAX - 9) / 10,
        last < 10,
        call_ensures(decimal_text, (n,), r),
        call_ensures(decimal_text, ((10 * n + last) as u64,), longer),
        call_ensures(decimal_text, (last,), single),
    ensures
        single@ == seq![(('0' as u8) + last) as char],
        longer@ == r@.push((('0' as u8) + last) as char),
        decimal(last as nat) == single@,
        decimal(n as nat) == r@,
        r@[0] != '0',
{
    let whole = 10 * n + last;
    assert(whole / 10 == n && whole % 10 == last);
    assert(decimal(whole as nat) == decimal(n as nat).push(digit(last as nat)));
    lemma_first_digit(n as nat);
}

/// A number in decimal does not begin with a zero.
proof fn lemma_first_digit(n: nat)
    requires
        n > 0,
    ensures
        decimal(n).len() > 0,
        decimal(n)[0] != '0',
    decreases n,
{
    if n >= 10 {
        lemma_first_digit(n / 10);
    }
}

/// What the digits of `s` stand for, read in decimal.
pub open spec fn read_decimal(s: Seq<char>) -> int
    decreases s.len(),
{
    if s.len() == 0 {
        0
    } else {
        10 * read_decimal(s.drop_last()) + (s.last() as int - '0' as int)
    }
}

/// A number in decimal is read as that number, so that no two numbers are
/// written alike; it has digits only.
pub proof fn decimal_is_read_back(n: nat)
    ensures
        read_decimal(decimal(n)) == n,
        decimal(n).len() > 0,
        forall|i: int| 0 <= i < decimal(n).len() ==> '0' <= #[trigger] decimal(n)[i] <= '9',
    decreases n,
{
    let s = decimal(n);
    if n >= 10 {
        decimal_is_read_back(n / 10);
        assert(s.drop_last() =~= decimal(n / 10));
        assert forall|i: int| 0 <= i < s.len() implies '0' <= #[trigger] s[i] <= '9' by {
            if i < s.len() - 1 {
                assert(s[i] == decimal(n / 10)[i]);
            }
        }
    } else {
        assert(read_decimal(s.drop_last()) == 0);
    }
}

/// Texts that are joined stand in their order, with the separator between each
/// two and nowhere else: a further text is added behind the separator, unless
/// it is the first.
pub proof fn joining_adds_behind(
    parts: &Vec<String>,
    longer: &Vec<String>,
    sep: &str,
    last: Seq<char>,
    r: String,
    more: String,
)
    requires
        longer.deep_view() == parts.deep_view().push(last),
        call_ensures(join_texts, (parts, sep), r),
        call_ensures(join_texts, (longer, sep), more),
    ensures
        parts.len() == 0 ==> r@.len() == 0 && more@ == last,
        parts.len() > 0 ==> more@ == r@ + sep@ + last,
{
    assert(parts.deep_view().len() == parts.len());
    assert(longer.deep_view().drop_last() =~= parts.deep_view());
}

/// Texts that are joined in two parts are joined as a whole.
pub proof fn joined_parts_make_the_whole(a: Seq<Seq<char>>, b: Seq<Seq<char>>, sep: Seq<char>)
    requires
        a.len() > 0,
        b.len() > 0,
    ensures
        joined(a + b, sep) == joined(a, sep) + sep + joined(b, sep),
    decreases b.len(),
{
    let whole = a + b;
    assert(whole.drop_last() =~= a + b.drop_last());
    if b.len() == 1 {
        assert(a + b.drop_last() =~= a);
    } else {
        joined_parts_make_the_whole(a, b.drop_last(), sep);
        assert(joined(whole, sep) =~= joined(a, sep) + sep + joined(b, sep));
    }
}

} // verus!
