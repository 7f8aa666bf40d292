//! Finding the query in the payload of a Flight descriptor or ticket.

use crate::any;
use crate::any::decode_any;
use crate::text;
use crate::text::{chars_of, has_text, utf8_lossy, utf8_text};
use crate::wire;
use crate::wire::{decode_fields, message_text};
use vstd::prelude::*;
use vstd::slice::*;
use vstd::string::*;
use vstd::utf8::*;

verus! {

/// Whether `c` can stand in a word: an ASCII letter or digit, or `_`.
pub open spec fn is_word_char(c: char) -> bool {
    ||| 'a' <= c <= 'z'
    ||| 'A' <= c <= 'Z'
    ||| '0' <= c <= '9'
    ||| c == '_'
}

/// `c`, or its upper case where it is an ASCII letter.
pub open spec fn upper(c: char) -> char {
    if 'a' <= c <= 'z' {
        (c as u8 - 32) as char
    } else {
        c
    }
}

/// `s` with its ASCII letters in upper case.
pub open spec fn uppercased(s: Seq<char>) -> Seq<char> {
    s.map_values(|c: char| upper(c))
}

/// Whether `s` from `i` to `j` is a word: word characters only, as many of
/// them as stand there.
pub open spec fn is_word(s: Seq<char>, i: int, j: int) -> bool {
    &&& 0 <= i < j <= s.len()
    &&& forall|k: int| i <= k < j ==> is_word_char(#[trigger] s[k])
    &&& i == 0 || !is_word_char(s[i - 1])
    &&& j == s.len() || !is_word_char(s[j])
}

/// Whether `word` is one of the words that mark a query, in any case.
pub open spec fn is_keyword(word: Seq<char>) -> bool {
    let w = uppercased(word);
    ||| w == "MATCH"@
    ||| w == "RETURN"@
    ||| w == "CREATE"@
    ||| w == "CALL"@
    ||| w == "UNWIND"@
    ||| w == "WITH"@
    ||| w == "SELECT"@
    ||| w == "SHOW"@
    ||| w == "DESCRIBE"@
    ||| w == "EXPLAIN"@
}

/// Whether a word of `s` marks it as a query.
pub open spec fn is_query_like(s: Seq<char>) -> bool {
    exists|i: int, j: int| #[trigger] is_word(s, i, j) && is_keyword(s.subrange(i, j))
}

/// `c` in upper case where it is an ASCII letter.
fn to_upper(c: char) -> (r: char)
    ensures
        r == upper(c),
{
    if 'a' <= c && c <= 'z' {
        (c as u8 - 32) as char
    } else {
        c
    }
}

/// Whether the characters of `word` are those of `text`.
fn spells(word: &Vec<char>, text: &str) -> (r: bool)
    ensures
        r == (word@ == text@),
{
    let other: Vec<char> = chars_of(text);
    if word.len() != other.len() {
        return false;
    }
    let mut i: usize = 0;
    while i < word.len()
        invariant
            i <= word.len(),
            word.len() == other.len(),
            other@ == text@,
            forall|k: int| 0 <= k < i ==> word@[k] == other@[k],
        decreases word.len() - i,
    {
        if word[i] != other[i] {
            return false;
        }
        i = i + 1;
    }
    assert(word@ =~= other@);
    true
}

/// Whether `upper_word`, which is in upper case, marks a query.
fn marks_query(upper_word: &Vec<char>) -> (r: bool)
    ensures
        forall|w: Seq<char>| uppercased(w) == upper_word@ ==> r == #[trigger] is_keyword(w),
{
    spells(upper_word, "MATCH") || spells(upper_word, "RETURN") || spells(upper_word, "CREATE")
        || spells(upper_word, "CALL") || spells(upper_word, "UNWIND") || spells(upper_word, "WITH")
        || spells(upper_word, "SELECT") || spells(upper_word, "SHOW") || spells(
        upper_word,
        "DESCRIBE",
    ) || spells(upper_word, "EXPLAIN")
}

/// Whether a word of `s` is one of the words that mark a query, in any case.
pub fn looks_like_query(s: &str) -> (r: bool)
    ensures
        r == is_query_like(s@),
{
    let chars: Vec<char> = chars_of(s);
    let ghost t = s@;
    let mut word: Vec<char> = Vec::new();
    let mut i: usize = 0;
    let ghost mut from: int = 0;
    while i < chars.len()
        invariant
            chars@ == t,
            t == s@,
            0 <= from <= i <= chars.len(),
            word@ =~= uppercased(t.subrange(from, i as int)),
            forall|k: int| from <= k < i ==> is_word_char(#[trigger] t[k]),
            from == 0 || !is_word_char(t[from - 1]),
            forall|x: int, y: int|
                #[trigger] is_word(t, x, y) && y < from ==> !is_keyword(t.subrange(x, y)),
        decreases chars.len() - i,
    {
        let c: char = chars[i];
        if ('a' <= c && c <= 'z') || ('A' <= c && c <= 'Z') || ('0' <= c && c <= '9') || c == '_' {
            word.push(to_upper(c));
        } else {
            if marks_query(&word) {
                assert(is_keyword(t.subrange(from, i as int)));
                assert(from < i) by {
                    lemma_keyword_nonempty(t.subrange(from, i as int));
                }
                assert(is_word(t, from, i as int));
                return true;
            }
            assert forall|x: int, y: int|
                #[trigger] is_word(t, x, y) && y < i + 1 implies !is_keyword(t.subrange(x, y)) by {
                if y >= from {
                    lemma_word_ends(t, from, i as int, x, y);
                }
            }
            word = Vec::new();
            proof {
                from = i + 1;
            }
        }
        i = i + 1;
    }
    let found: bool = marks_query(&word);
    proof {
        if found {
            lemma_keyword_nonempty(t.subrange(from, i as int));
            assert(is_word(t, from, i as int));
        } else {
            assert forall|x: int, y: int| #[trigger] is_word(t, x, y) implies !is_keyword(
                t.subrange(x, y),
            ) by {
                if y >= from {
                    lemma_word_ends(t, from, i as int, x, y);
                }
            }
        }
    }
    found
}

/// The query of a Flight SQL command that is wrapped in an `Any`: a statement
/// query or a request to prepare a statement whose text is not blank.
pub open spec fn wrapped_query(cmd: Seq<u8>) -> Option<Seq<char>> {
    let url = any::any_url(cmd);
    let value = any::any_value(cmd);
    let query = wire::field_text(wire::message_fields(value), 1);
    if value.len() > 0 && (text::contains(url, "CommandStatementQuery"@) || text::contains(
        url,
        "ActionCreatePreparedStatementRequest"@,
    )) && !text::is_blank(query) {
        Some(text::trimmed(query))
    } else {
        None
    }
}

/// The query that a field holds: a trimmed text that looks like a query and
/// does not speak of message types.
pub open spec fn nested_query(field: wire::WireField) -> Option<Seq<char>> {
    let s = text::trimmed(decode_utf8(field.2));
    if field.1 == 2 && valid_utf8(field.2) && !text::contains(s, "type.googleapis.com"@)
        && !text::contains(s, "arrow.flight"@) && is_query_like(s) {
        Some(s)
    } else {
        None
    }
}

/// The longest query, in bytes, that one of the fields holds, the first of
/// them where there are several, or the empty text where there is none.
pub open spec fn longest_nested(fields: Seq<wire::WireField>) -> Seq<char>
    decreases fields.len(),
{
    if fields.len() == 0 {
        Seq::empty()
    } else {
        let best = longest_nested(fields.drop_last());
        match nested_query(fields.last()) {
            Some(s) => if encode_utf8(s).len() > encode_utf8(best).len() {
                s
            } else {
                best
            },
            None => best,
        }
    }
}

/// The query among the readings of a command that is not wrapped: its whole
/// text where that looks like a query, else the text of its first field where
/// that does and is no type URL, else the longest query of a field, else its
/// whole text.
pub open spec fn chosen_query(raw: Seq<char>, bare: Seq<char>, nested: Seq<char>) -> Seq<char> {
    if raw.len() > 0 && is_query_like(raw) {
        raw
    } else if !text::is_blank(bare) && is_query_like(bare) && !text::contains(
        bare,
        "type.googleapis.com"@,
    ) {
        text::trimmed(bare)
    } else if nested.len() > 0 {
        nested
    } else {
        raw
    }
}

/// The query in the command `cmd`.
pub open spec fn query_of(cmd: Seq<u8>) -> Seq<char> {
    match wrapped_query(cmd) {
        Some(query) => query,
        None => chosen_query(
            text::trimmed(text::lossy_text(cmd)),
            wire::field_text(wire::message_fields(cmd), 1),
            longest_nested(wire::message_fields(cmd)),
        ),
    }
}

/// The longest query, in bytes, that one of the fields of `cmd` holds, or the
/// empty text.
fn find_nested(cmd: &[u8]) -> (r: String)
    ensures
        r@ == longest_nested(wire::message_fields(cmd@)),
{
    let fields: Vec<(u32, u8, Vec<u8>)> = decode_fields(cmd);
    let ghost all = fields.deep_view();
    let mut best: String = String::new();
    let mut i: usize = 0;
    while i < fields.len()
        invariant
            i <= fields.len(),
            all == fields.deep_view(),
            best@ == longest_nested(all.take(i as int)),
        decreases fields.len() - i,
    {
        let field: &(u32, u8, Vec<u8>) = &fields[i];
        proof {
            let next = all.take(i + 1);
            assert(next.last() == fields[i as int].deep_view());
            assert(next.drop_last() =~= all.take(i as int));
            assert(field.2.deep_view() =~= field.2@);
        }
        if field.1 == 2 {
            if let Some(whole) = utf8_text(slice_to_vec(field.2.as_slice())) {
                let s: &str = whole.as_str().trim();
                if !has_text(s, "type.googleapis.com") && !has_text(s, "arrow.flight")
                    && looks_like_query(s) && s.as_bytes().len() > best.as_str().as_bytes().len() {
                    best = s.to_owned();
                }
            }
        }
        i = i + 1;
    }
    assert(all.take(i as int) =~= all);
    best
}

/// Chooses among the readings of a command that is not wrapped: its whole
/// text, trimmed, the text of its first field, and the longest query that a
/// field holds.
pub fn choose_query(raw: String, bare: String, nested: String) -> (r: String)
    ensures
        r@ == chosen_query(raw@, bare@, nested@),
{
    if !raw.as_str().is_empty() && looks_like_query(raw.as_str()) {
        return raw;
    }
    let q: &str = bare.as_str().trim();
    if !q.is_empty() && looks_like_query(bare.as_str()) && !has_text(
        bare.as_str(),
        "type.googleapis.com",
    ) {
        return q.to_owned();
    }
    if !nested.as_str().is_empty() {
        return nested;
    }
    raw
}

/// The query in the payload of a Flight descriptor or ticket, as well as it
/// can be found.
pub fn extract_query(cmd: &[u8]) -> (r: String)
    ensures
        r@ == query_of(cmd@),
{
    let (url, value) = decode_any(cmd);
    if value.len() > 0 && (has_text(url.as_str(), "CommandStatementQuery") || has_text(
        url.as_str(),
        "ActionCreatePreparedStatementRequest",
    )) {
        let q: String = message_text(value.as_slice(), 1);
        let trimmed: &str = q.as_str().trim();
        if !trimmed.is_empty() {
            return trimmed.to_owned();
        }
    }
    let raw: String = utf8_lossy(cmd).as_str().trim().to_owned();
    choose_query(raw, message_text(cmd, 1), find_nested(cmd))
}

/// Whether a plain text is taken as it is, read as the bytes of a command: its
/// trimmed text looks like a query, or no field that its bytes happen to hold
/// does.
pub open spec fn is_taken_plainly(query: Seq<char>) -> bool {
    let fields = wire::message_fields(encode_utf8(query));
    ||| is_query_like(text::trimmed(query))
    ||| {
        &&& !is_query_like(wire::field_text(fields, 1))
        &&& longest_nested(fields).len() == 0
    }
}

/// A query that is sent as plain text passes through, trimmed, unless the
/// bytes of the text happen to read as a wrapped command, or the text does not
/// look like a query and a field that its bytes happen to hold does.
pub proof fn plain_query_passes(query: Seq<char>)
    requires
        is_taken_plainly(query),
        wrapped_query(encode_utf8(query)) is None,
    ensures
        query_of(encode_utf8(query)) == text::trimmed(query),
{
    encode_utf8_valid_utf8(query);
    encode_utf8_decode_utf8(query);
    lemma_query_like_nonempty(text::trimmed(query));
}

/// A text that does not hold the name of a command does not read as a wrapped
/// command.
pub proof fn plain_text_is_not_wrapped(query: Seq<char>)
    requires
        !text::contains(query, "CommandStatementQuery"@),
        !text::contains(query, "ActionCreatePreparedStatementRequest"@),
    ensures
        wrapped_query(encode_utf8(query)) is None,
{
    let url = any::any_url(encode_utf8(query));
    reveal_strlit("CommandStatementQuery");
    reveal_strlit("ActionCreatePreparedStatementRequest");
    if text::contains(url, "CommandStatementQuery"@) {
        any::url_names_are_in_text(query, "CommandStatementQuery"@);
    }
    if text::contains(url, "ActionCreatePreparedStatementRequest"@) {
        any::url_names_are_in_text(query, "ActionCreatePreparedStatementRequest"@);
    }
}

/// No query is found where the whole text is blank, whatever fields its bytes
/// happen to hold.
pub proof fn blank_text_has_no_query(cmd: Seq<u8>)
    requires
        text::is_blank(text::lossy_text(cmd)),
    ensures
        query_of(cmd).len() == 0,
{
    let whole = text::lossy_text(cmd);
    let fields = wire::message_fields(cmd);
    assert(valid_utf8(cmd)) by {
        if !valid_utf8(cmd) {
            text::repair_is_shown(cmd);
            let i = choose|i: int| 0 <= i < whole.len() && whole[i] == '\u{fffd}';
            text::blank_is_white(whole, i);
        }
    }
    decode_utf8_encode_utf8(cmd);
    assert(wrapped_query(cmd) is None) by {
        lemma_blank_lacks(whole, "CommandStatementQuery"@);
        lemma_blank_lacks(whole, "ActionCreatePreparedStatementRequest"@);
        plain_text_is_not_wrapped(whole);
    }
    assert forall|j: int| 0 <= j < cmd.len() implies !is_word_byte(#[trigger] cmd[j]) by {
        if cmd[j] < 0x80 {
            text::ascii_is_in_text(cmd, j);
            let i = choose|i: int| 0 <= i < whole.len() && whole[i] == cmd[j] as char;
            text::blank_is_white(whole, i);
        }
    }
    assert forall|k: int| 0 <= k < fields.len() implies is_wordless(#[trigger] fields[k].2) by {
        wire::payload_is_part(cmd, k);
        let payload = fields[k].2;
        let (a, b) = choose|a: int, b: int| wire::is_part(cmd, payload, a, b);
        assert forall|j: int| 0 <= j < payload.len() implies !is_word_byte(#[trigger] payload[j]) by {
            assert(payload[j] == cmd[a + j]);
        }
    }
    lemma_wordless_field(fields, 1);
    lemma_wordless_nested(fields);
    assert(!is_query_like(Seq::<char>::empty()));
}

/// Whether `b` is an ASCII letter or digit, or `_`.
spec fn is_word_byte(b: u8) -> bool {
    b < 0x80 && is_word_char(b as char)
}

/// Whether no byte can stand in a word.
spec fn is_wordless(bytes: Seq<u8>) -> bool {
    forall|j: int| 0 <= j < bytes.len() ==> !is_word_byte(#[trigger] bytes[j])
}

/// A blank text does not hold the name of a command.
proof fn lemma_blank_lacks(s: Seq<char>, name: Seq<char>)
    requires
        text::is_blank(s),
        name == "CommandStatementQuery"@ || name == "ActionCreatePreparedStatementRequest"@,
    ensures
        !text::contains(s, name),
{
    assert(name.len() > 0 && !text::is_white_space(name[0])) by {
        reveal_strlit("CommandStatementQuery");
        reveal_strlit("ActionCreatePreparedStatementRequest");
    }
    if text::contains(s, name) {
        let i = choose|i: int| text::occurs_at(s, name, i);
        assert(s.subrange(i, i + name.len())[0] == s[i]);
        text::blank_is_white(s, i);
    }
}

/// The text of bytes without a word byte does not look like a query, neither
/// as it is nor trimmed.
proof fn lemma_wordless_text(bytes: Seq<u8>)
    requires
        is_wordless(bytes),
    ensures
        !is_query_like(text::lossy_text(bytes)),
        !is_query_like(text::trimmed(text::lossy_text(bytes))),
{
    let s = text::lossy_text(bytes);
    let t = text::trimmed(s);
    assert forall|i: int| 0 <= i < s.len() implies !is_word_char(#[trigger] s[i]) by {
        if is_word_char(s[i]) {
            text::ascii_is_in_bytes(bytes, i);
            let j = choose|j: int| 0 <= j < bytes.len() && bytes[j] == s[i] as u8;
            assert(is_word_byte(bytes[j]));
        }
    }
    assert forall|i: int| 0 <= i < t.len() implies !is_word_char(#[trigger] t[i]) by {
        text::lemma_trimmed_part(s, i);
        let j = choose|j: int| 0 <= j < s.len() && s[j] == t[i];
        assert(!is_word_char(s[j]));
    }
    assert forall|i: int, j: int| !#[trigger] is_word(s, i, j) by {
        if is_word(s, i, j) {
            assert(is_word_char(s[i]));
        }
    }
    assert forall|i: int, j: int| !#[trigger] is_word(t, i, j) by {
        if is_word(t, i, j) {
            assert(is_word_char(t[i]));
        }
    }
}

/// Where no payload holds a word byte, the text of no field looks like a
/// query.
proof fn lemma_wordless_field(fields: Seq<wire::WireField>, number: u32)
    requires
        forall|k: int| 0 <= k < fields.len() ==> is_wordless(#[trigger] fields[k].2),
    ensures
        !is_query_like(wire::field_text(fields, number)),
    decreases fields.len(),
{
    if fields.len() > 0 {
        assert(is_wordless(fields[0].2));
        lemma_wordless_text(fields[0].2);
        let less = fields.drop_first();
        assert forall|k: int| 0 <= k < less.len() implies is_wordless(#[trigger] less[k].2) by {
            assert(less[k] == fields[k + 1]);
        }
        lemma_wordless_field(less, number);
    }
}

/// Where no payload holds a word byte, no field holds a query.
proof fn lemma_wordless_nested(fields: Seq<wire::WireField>)
    requires
        forall|k: int| 0 <= k < fields.len() ==> is_wordless(#[trigger] fields[k].2),
    ensures
        longest_nested(fields).len() == 0,
    decreases fields.len(),
{
    if fields.len() > 0 {
        let less = fields.drop_last();
        assert forall|k: int| 0 <= k < less.len() implies is_wordless(#[trigger] less[k].2) by {
            assert(less[k] == fields[k]);
        }
        lemma_wordless_nested(less);
        assert(is_wordless(fields[fields.len() - 1].2));
        lemma_wordless_text(fields.last().2);
    }
}

/// A text that looks like a query is not empty.
proof fn lemma_query_like_nonempty(s: Seq<char>)
    ensures
        is_query_like(s) ==> s.len() > 0,
{
}

/// A wrapped command holds the query of its message.
pub(crate) proof fn lemma_wrapped(cmd: Seq<u8>, query: Seq<char>)
    requires
        any::any_value(cmd).len() > 0,
        text::contains(any::any_url(cmd), "CommandStatementQuery"@) || text::contains(
            any::any_url(cmd),
            "ActionCreatePreparedStatementRequest"@,
        ),
        wire::field_text(wire::message_fields(any::any_value(cmd)), 1) == query,
        !text::is_blank(query),
    ensures
        query_of(cmd) == text::trimmed(query),
{
    assert(wrapped_query(cmd) == Some(text::trimmed(query)));
}

/// No keyword is empty.
proof fn lemma_keyword_nonempty(word: Seq<char>)
    ensures
        is_keyword(word) ==> word.len() > 0,
{
    assert(uppercased(word).len() == word.len());
    reveal_strlit("MATCH");
    reveal_strlit("RETURN");
    reveal_strlit("CREATE");
    reveal_strlit("CALL");
    reveal_strlit("UNWIND");
    reveal_strlit("WITH");
    reveal_strlit("SELECT");
    reveal_strlit("SHOW");
    reveal_strlit("DESCRIBE");
    reveal_strlit("EXPLAIN");
}

/// A word that ends in a run of word characters, or right behind it, is that
/// run.
proof fn lemma_word_ends(t: Seq<char>, from: int, to: int, x: int, y: int)
    requires
        0 <= from <= to <= t.len(),
        forall|k: int| from <= k < to ==> is_word_char(#[trigger] t[k]),
        from == 0 || !is_word_char(t[from - 1]),
        to == t.len() || !is_word_char(t[to]),
        is_word(t, x, y),
        from <= y <= to,
    ensures
        x == from,
        y == to,
{
    if y < to {
        assert(is_word_char(t[y]));
    }
    if x < from {
        assert(is_word_char(t[from - 1]));
    }
    if x > from {
        assert(is_word_char(t[x - 1]));
    }
}

/// Whether two texts are the same but for the case of ASCII letters, the second
/// being in upper case.
pub open spec fn spells_in_any_case(word: Seq<char>, capitals: Seq<char>) -> bool {
    &&& word.len() == capitals.len()
    &&& forall|k: int|
        0 <= k < word.len() ==> {
            ||| #[trigger] word[k] == capitals[k]
            ||| 'A' <= capitals[k] <= 'Z' && word[k] as int == capitals[k] as int + 32
        }
}

/// Whether a word is one of the ten that mark a query, in any case.
pub open spec fn is_marking_word(word: Seq<char>) -> bool {
    ||| spells_in_any_case(word, "MATCH"@)
    ||| spells_in_any_case(word, "RETURN"@)
    ||| spells_in_any_case(word, "CREATE"@)
    ||| spells_in_any_case(word, "CALL"@)
    ||| spells_in_any_case(word, "UNWIND"@)
    ||| spells_in_any_case(word, "WITH"@)
    ||| spells_in_any_case(word, "SELECT"@)
    ||| spells_in_any_case(word, "SHOW"@)
    ||| spells_in_any_case(word, "DESCRIBE"@)
    ||| spells_in_any_case(word, "EXPLAIN"@)
}

/// A text in upper case letters only.
spec fn in_capitals(s: Seq<char>) -> bool {
    forall|k: int| 0 <= k < s.len() ==> 'A' <= #[trigger] s[k] <= 'Z'
}

/// A word in upper case is a text where it spells that text in any case.
proof fn lemma_spells(word: Seq<char>, capitals: Seq<char>)
    requires
        in_capitals(capitals),
    ensures
        uppercased(word) == capitals <==> spells_in_any_case(word, capitals),
{
    let w = uppercased(word);
    if w == capitals {
        assert forall|k: int| 0 <= k < word.len() implies {
            ||| #[trigger] word[k] == capitals[k]
            ||| 'A' <= capitals[k] <= 'Z' && word[k] as int == capitals[k] as int + 32
        } by {
            assert(w[k] == upper(word[k]));
        }
    }
    if spells_in_any_case(word, capitals) {
        assert forall|k: int| 0 <= k < w.len() implies w[k] == capitals[k] by {
            assert('A' <= capitals[k] <= 'Z');
            assert(word[k] == capitals[k] || word[k] as int == capitals[k] as int + 32);
        }
        assert(w =~= capitals);
    }
}

/// The words that mark a query are the ten.
proof fn lemma_marking_word(word: Seq<char>)
    ensures
        is_keyword(word) <==> is_marking_word(word),
{
    assert(in_capitals("MATCH"@)) by {
        reveal_strlit("MATCH");
    }
    assert(in_capitals("RETURN"@)) by {
        reveal_strlit("RETURN");
    }
    assert(in_capitals("CREATE"@)) by {
        reveal_strlit("CREATE");
    }
    assert(in_capitals("CALL"@)) by {
        reveal_strlit("CALL");
    }
    assert(in_capitals("UNWIND"@)) by {
        reveal_strlit("UNWIND");
    }
    assert(in_capitals("WITH"@)) by {
        reveal_strlit("WITH");
    }
    assert(in_capitals("SELECT"@)) by {
        reveal_strlit("SELECT");
    }
    assert(in_capitals("SHOW"@)) by {
        reveal_strlit("SHOW");
    }
    assert(in_capitals("DESCRIBE"@)) by {
        reveal_strlit("DESCRIBE");
    }
    assert(in_capitals("EXPLAIN"@)) by {
        reveal_strlit("EXPLAIN");
    }
    lemma_spells(word, "MATCH"@);
    lemma_spells(word, "RETURN"@);
    lemma_spells(word, "CREATE"@);
    lemma_spells(word, "CALL"@);
    lemma_spells(word, "UNWIND"@);
    lemma_spells(word, "WITH"@);
    lemma_spells(word, "SELECT"@);
    lemma_spells(word, "SHOW"@);
    lemma_spells(word, "DESCRIBE"@);
    lemma_spells(word, "EXPLAIN"@);
}

/// Whether a character is an ASCII letter or digit or an underscore, by its
/// code.
pub open spec fn joins_words(c: char) -> bool {
    ||| 0x30 <= c as int <= 0x39
    ||| 0x41 <= c as int <= 0x5a
    ||| c as int == 0x5f
    ||| 0x61 <= c as int <= 0x7a
}

/// A text looks like a query where one of the ten words stands in it by itself,
/// with no letter, digit or underscore right in front of it or right behind.
pub proof fn marking_word_is_found(
    before: Seq<char>,
    word: Seq<char>,
    after: Seq<char>,
    s: &str,
    r: bool,
)
    requires
        s@ == before + word + after,
        call_ensures(looks_like_query, (s,), r),
        is_marking_word(word),
        before.len() > 0 ==> !joins_words(before.last()),
        after.len() > 0 ==> !joins_words(after[0]),
    ensures
        r,
        is_query_like(s@),
{
    let i = before.len() as int;
    let j = i + word.len();
    lemma_marking_word(word);
    lemma_keyword_nonempty(word);
    assert(s@.subrange(i, j) =~= word);
    lemma_keyword_chars(word);
    assert forall|k: int| i <= k < j implies is_word_char(#[trigger] s@[k]) by {
        assert(s@[k] == word[k - i]);
    }
    if i > 0 {
        assert(s@[i - 1] == before.last());
    }
    if j < s@.len() {
        assert(s@[j] == after[0]);
    }
    assert(is_word(s@, i, j));
}

/// A text that looks like a query holds one of the ten words by itself.
pub proof fn query_holds_marking_word(s: &str, r: bool)
    requires
        call_ensures(looks_like_query, (s,), r),
    ensures
        r ==> exists|i: int, j: int|
            {
                &&& 0 <= i < j <= s@.len()
                &&& is_marking_word(#[trigger] s@.subrange(i, j))
                &&& i > 0 ==> !joins_words(s@[i - 1])
                &&& j < s@.len() ==> !joins_words(s@[j])
            },
{
    if r {
        let (i, j) = choose|i: int, j: int| #[trigger]
            is_word(s@, i, j) && is_keyword(s@.subrange(i, j));
        lemma_marking_word(s@.subrange(i, j));
        assert(is_marking_word(s@.subrange(i, j)));
    }
}

/// The words that mark a query are of letters.
proof fn lemma_keyword_chars(word: Seq<char>)
    requires
        is_marking_word(word),
    ensures
        forall|k: int| 0 <= k < word.len() ==> is_word_char(#[trigger] word[k]),
{
    reveal_strlit("MATCH");
    reveal_strlit("RETURN");
    reveal_strlit("CREATE");
    reveal_strlit("CALL");
    reveal_strlit("UNWIND");
    reveal_strlit("WITH");
    reveal_strlit("SELECT");
    reveal_strlit("SHOW");
    reveal_strlit("DESCRIBE");
    reveal_strlit("EXPLAIN");
}

/// The query that is found in a command neither begins nor ends with white
/// space, whatever the command.
pub proof fn found_query_is_trimmed(cmd: &[u8], r: String)
    requires
        call_ensures(extract_query, (cmd,), r),
    ensures
        text::trimmed(r@) == r@,
        r@.len() > 0 ==> !text::is_white_space(r@[0]) && !text::is_white_space(r@.last()),
{
    lemma_query_is_trimmed(cmd@);
    lemma_trimmed_ends(r@);
}

/// A trimmed text neither begins nor ends with white space.
proof fn lemma_trimmed_ends(s: Seq<char>)
    requires
        text::trimmed(s) == s,
    ensures
        s.len() > 0 ==> !text::is_white_space(s[0]) && !text::is_white_space(s.last()),
{
    let (a, b) = text::trimming_takes_white_space_only(s);
    assert(s.subrange(a, b).len() == b - a);
    assert(b - a == s.len());
    assert(a == 0 && b == s.len());
}

/// The query of a command is trimmed.
proof fn lemma_query_is_trimmed(cmd: Seq<u8>)
    ensures
        text::trimmed(query_of(cmd)) == query_of(cmd),
{
    let raw = text::lossy_text(cmd);
    let bare = wire::field_text(wire::message_fields(cmd), 1);
    let nested = longest_nested(wire::message_fields(cmd));
    text::trimming_is_idempotent(raw);
    text::trimming_is_idempotent(bare);
    lemma_nested_is_trimmed(wire::message_fields(cmd));
    match wrapped_query(cmd) {
        Some(query) => {
            text::trimming_is_idempotent(
                wire::field_text(wire::message_fields(any::any_value(cmd)), 1),
            );
        },
        None => {
            let chosen = chosen_query(text::trimmed(raw), bare, nested);
            assert(chosen == text::trimmed(raw) || chosen == text::trimmed(bare) || chosen
                == nested);
        },
    }
}

/// A query of a field is trimmed.
proof fn lemma_nested_is_trimmed(fields: Seq<wire::WireField>)
    ensures
        text::trimmed(longest_nested(fields)) == longest_nested(fields),
    decreases fields.len(),
{
    if fields.len() > 0 {
        lemma_nested_is_trimmed(fields.drop_last());
        text::trimming_is_idempotent(decode_utf8(fields.last().2));
    } else {
        assert(text::trimmed(Seq::<char>::empty()) =~= Seq::<char>::empty());
    }
}

/// Whether a field holds this query: it is the trimmed text of the field, looks
/// like a query, and speaks of no message type.
pub open spec fn holds_query(field: wire::WireField, s: Seq<char>) -> bool {
    &&& field.1 == 2
    &&& valid_utf8(field.2)
    &&& s == text::trimmed(decode_utf8(field.2))
    &&& is_query_like(s)
    &&& !text::contains(s, "type.googleapis.com"@)
    &&& !text::contains(s, "arrow.flight"@)
}

/// The query that is found among the fields of a command is the longest in
/// bytes that a field holds, and the first of those of that length. None is
/// found only where no field holds one.
pub proof fn longest_query_is_found(fields: Seq<wire::WireField>, k: int, s: Seq<char>)
    requires
        0 <= k < fields.len(),
        holds_query(fields[k], s),
    ensures
        longest_nested(fields).len() > 0,
        encode_utf8(s).len() <= encode_utf8(longest_nested(fields)).len(),
        exists|j: int|
            {
                &&& 0 <= j < fields.len()
                &&& holds_query(#[trigger] fields[j], longest_nested(fields))
                &&& j <= k || encode_utf8(s).len() < encode_utf8(longest_nested(fields)).len()
            },
    decreases fields.len(),
{
    let less = fields.drop_last();
    let last = fields.len() - 1;
    let best = longest_nested(less);
    lemma_query_like_nonempty(s);
    lemma_bytes_nonempty(s);
    assert(encode_utf8(Seq::<char>::empty()).len() == 0);
    if k < last {
        assert(less[k] == fields[k]);
        longest_query_is_found(less, k, s);
        let j = choose|j: int|
            {
                &&& 0 <= j < less.len()
                &&& holds_query(#[trigger] less[j], best)
                &&& j <= k || encode_utf8(s).len() < encode_utf8(best).len()
            };
        assert(fields[j] == less[j]);
        if longest_nested(fields) != best {
            assert(holds_query(fields[last], longest_nested(fields)));
            lemma_query_like_nonempty(longest_nested(fields));
        }
    } else {
        assert(nested_query(fields.last()) == Some(s));
        if encode_utf8(s).len() > encode_utf8(best).len() {
            assert(holds_query(fields[last], longest_nested(fields)));
        } else {
            found_query_is_held(less);
            assert(best.len() > 0);
            let j = choose|j: int| 0 <= j < less.len() && holds_query(#[trigger] less[j], best);
            assert(fields[j] == less[j]);
        }
    }
}

/// A query that is found among fields is held by one of them.
pub proof fn found_query_is_held(fields: Seq<wire::WireField>)
    ensures
        longest_nested(fields).len() > 0 ==> exists|j: int|
            0 <= j < fields.len() && holds_query(#[trigger] fields[j], longest_nested(fields)),
    decreases fields.len(),
{
    if fields.len() > 0 {
        let less = fields.drop_last();
        found_query_is_held(less);
        let best = longest_nested(fields);
        if best.len() > 0 {
            if best == longest_nested(less) {
                let j = choose|j: int|
                    0 <= j < less.len() && holds_query(#[trigger] less[j], best);
                assert(fields[j] == less[j]);
            } else {
                assert(holds_query(fields[fields.len() - 1], best));
            }
        }
    }
}

/// A text that is not empty has bytes.
proof fn lemma_bytes_nonempty(s: Seq<char>)
    ensures
        s.len() > 0 ==> encode_utf8(s).len() > 0,
{
    if s.len() > 0 && encode_utf8(s).len() == 0 {
        encode_utf8_decode_utf8(s);
        assert(decode_utf8(encode_utf8(s)).len() == 0);
    }
}

/// Which of its readings a command that is not wrapped is taken as. Its whole
/// text is taken where that looks like a query, whatever the others; where it
/// does not, its first field, trimmed, where that looks like a query and is no
/// type URL; where that does not either, the query that a field holds, if there
/// is one; and the whole text where there is none.
pub proof fn readings_are_ranked(raw: String, bare: String, nested: String, r: String)
    requires
        call_ensures(choose_query, (raw, bare, nested), r),
    ensures
        is_query_like(raw@) ==> r@ == raw@,
        !is_query_like(raw@) && is_query_like(bare@) && !text::contains(
            bare@,
            "type.googleapis.com"@,
        ) ==> r@ == text::trimmed(bare@),
        !is_query_like(raw@) && !is_query_like(bare@) && nested@.len() > 0 ==> r@ == nested@,
        !is_query_like(raw@) && text::contains(bare@, "type.googleapis.com"@) && nested@.len() > 0
            ==> r@ == nested@,
        !is_query_like(raw@) && !is_query_like(bare@) && nested@.len() == 0 ==> r@ == raw@,
        !is_query_like(raw@) && text::contains(bare@, "type.googleapis.com"@) && nested@.len() == 0
            ==> r@ == raw@,
{
    lemma_query_like_nonempty(raw@);
    if is_query_like(bare@) {
        lemma_query_like_is_not_blank(bare@);
    }
}

/// A text that looks like a query is not blank.
proof fn lemma_query_like_is_not_blank(s: Seq<char>)
    requires
        is_query_like(s),
    ensures
        !text::is_blank(s),
{
    if text::is_blank(s) {
        let (i, j) = choose|i: int, j: int| #[trigger]
            is_word(s, i, j) && is_keyword(s.subrange(i, j));
        assert(is_word_char(s[i]));
        text::blank_is_white(s, i);
    }
}

/// What is found in a command: in a wrapped statement query or request to
/// prepare one the whole of its query, trimmed, and in a plain text the whole
/// text, trimmed.
pub proof fn sent_query_is_found(cmd: &[u8], query: Seq<char>, r: String)
    requires
        call_ensures(extract_query, (cmd,), r),
        ({
            ||| {
                &&& any::any_value(cmd@) == wire::length_delimited(1, encode_utf8(query))
                &&& any::any_url(cmd@)
                    == "type.googleapis.com/arrow.flight.protocol.sql.CommandStatementQuery"@
                    || any::any_url(cmd@)
                    == "type.googleapis.com/arrow.flight.protocol.sql.ActionCreatePreparedStatementRequest"@
                &&& !text::is_blank(query)
                &&& encode_utf8(query).len() <= wire::MAX_PAYLOAD
            }
            ||| {
                &&& cmd@ == encode_utf8(query)
                &&& is_taken_plainly(query)
                &&& !text::contains(query, "CommandStatementQuery"@)
                &&& !text::contains(query, "ActionCreatePreparedStatementRequest"@)
            }
        }),
    ensures
        r@ == text::trimmed(query),
{
    if cmd@ == encode_utf8(query) && is_taken_plainly(query) && !text::contains(
        query,
        "CommandStatementQuery"@,
    ) && !text::contains(query, "ActionCreatePreparedStatementRequest"@) {
        plain_text_is_not_wrapped(query);
        plain_query_passes(query);
    } else {
        let value = any::any_value(cmd@);
        wire::field_round_trip(1, encode_utf8(query), Seq::empty());
        assert(value + Seq::<u8>::empty() =~= value);
        assert(wire::message_fields(value)[0] == (1u32, 2u8, encode_utf8(query)));
        text::encoded_text_is_read(query);
        lemma_command_names(any::any_url(cmd@));
        lemma_wrapped(cmd@, query);
    }
}

/// The names of the commands that hold a query stand in their type URLs.
proof fn lemma_command_names(url: Seq<char>)
    ensures
        url == "type.googleapis.com/arrow.flight.protocol.sql.CommandStatementQuery"@
            ==> text::contains(url, "CommandStatementQuery"@),
        url
            == "type.googleapis.com/arrow.flight.protocol.sql.ActionCreatePreparedStatementRequest"@
            ==> text::contains(url, "ActionCreatePreparedStatementRequest"@),
{
    if url == "type.googleapis.com/arrow.flight.protocol.sql.CommandStatementQuery"@ {
        reveal_strlit("type.googleapis.com/arrow.flight.protocol.sql.CommandStatementQuery");
        reveal_strlit("CommandStatementQuery");
        assert(url.subrange(46, 67) =~= "CommandStatementQuery"@);
        assert(text::occurs_at(url, "CommandStatementQuery"@, 46));
    }
    if url
        == "type.googleapis.com/arrow.flight.protocol.sql.ActionCreatePreparedStatementRequest"@ {
        reveal_strlit(
            "type.googleapis.com/arrow.flight.protocol.sql.ActionCreatePreparedStatementRequest",
        );
        reveal_strlit("ActionCreatePreparedStatementRequest");
        assert(url.subrange(46, 82) =~= "ActionCreatePreparedStatementRequest"@);
        assert(text::occurs_at(url, "ActionCreatePreparedStatementRequest"@, 46));
    }
}

} // verus!
