//! Multi-string values: a run of NUL-terminated texts with no count.
//!
//! The engine hands the texts back one by one, but only to a caller who
//! knows how many there are. The count is read off the raw bytes: the
//! registry stores text in 16-bit units, so a text in the ASCII range ends
//! in a byte followed by three zero bytes. Every window of four bytes of
//! that shape counts as one text. For other text the count is off; that is
//! part of the format's handling here, not an accident.
use vstd::prelude::*;
use vstd::utf8::decode_utf8;
use vstd::utf8::encode_utf8;
use vstd::utf8::valid_utf8;
use crate::error::Error;
use crate::error::ErrorView;
use crate::error::hivex_error;
use crate::error::string_convert_error;
use crate::text::chars_to_string;

verus! {

/// Whether the four bytes that end before `end` are some byte and three zeros.
pub open spec fn is_terminator(raw: Seq<i8>, end: int) -> bool {
    &&& 4 <= end <= raw.len()
    &&& raw[end - 3] == 0
    &&& raw[end - 2] == 0
    &&& raw[end - 1] == 0
}

/// The number of terminator windows that end at or before `end`.
pub open spec fn terminators_before(raw: Seq<i8>, end: int) -> nat
    decreases end,
{
    if end < 4 {
        0
    } else {
        terminators_before(raw, end - 1) + if is_terminator(raw, end) {
            1nat
        } else {
            0nat
        }
    }
}

/// The number of texts that the raw bytes of a multi-string value announce.
pub open spec fn terminator_count(raw: Seq<i8>) -> nat {
    terminators_before(raw, raw.len() as int)
}

/// What [`strings_value`] answers: the first `terminator_count(raw)` texts,
/// decoded, or the error that stands in the way.
pub open spec fn strings_of(raw: Seq<i8>, texts: Seq<Seq<u8>>) -> Result<Seq<Seq<char>>, ErrorView> {
    let n = terminator_count(raw) as int;
    if n > texts.len() {
        Err(hivex_error("hivex_value_multiple_strings"@))
    } else if exists|i: int| 0 <= i < n && !valid_utf8(#[trigger] texts[i]) {
        Err(string_convert_error())
    } else {
        Ok(Seq::new(n as nat, |i: int| decode_utf8(texts[i])))
    }
}

proof fn lemma_terminators_bounded(raw: Seq<i8>, end: int)
    ensures
        terminators_before(raw, end) <= if end < 3 {
            0
        } else {
            end - 3
        },
    decreases end,
{
    if end >= 4 {
        lemma_terminators_bounded(raw, end - 1);
    }
}

/// Counts the terminator windows of `raw`.
pub fn count_strings(raw: &[i8]) -> (n: usize)
    ensures
        n == terminator_count(raw@),
{
    let len = raw.len();
    if len < 4 {
        return 0;
    }
    let mut n: usize = 0;
    let mut start: usize = 0;
    while start < len - 3
        invariant
            len == raw@.len(),
            len >= 4,
            start <= len - 3,
            n == terminators_before(raw@, start + 3),
            n <= start,
        decreases len - start,
    {
        proof {
            lemma_terminators_bounded(raw@, start + 3);
        }
        if raw[start + 1] == 0 && raw[start + 2] == 0 && raw[start + 3] == 0 {
            n = n + 1;
        }
        start = start + 1;
    }
    n
}

/// Decodes the texts of a multi-string value: `raw` are its raw bytes,
/// `texts` the texts that the engine made of them, in order. As many texts
/// are taken as `raw` announces. Fewer texts than announced is an error of
/// the engine; a text that is no UTF-8 fails the whole value.
pub fn strings_value(raw: &[i8], texts: &Vec<Vec<u8>>) -> (res: Result<Vec<String>, Error>)
    ensures
        match strings_of(raw@, texts.deep_view()) {
            Ok(list) => res matches Ok(strings) && strings.deep_view() == list,
            Err(e) => res matches Err(err) && err@ == e,
        },
{
    let n = count_strings(raw);
    if n > texts.len() {
        return Err(Error::hivex_error("hivex_value_multiple_strings"));
    }
    let ghost all = texts.deep_view();
    let mut strings: Vec<String> = Vec::new();
    let mut i: usize = 0;
    while i < n
        invariant
            i <= n <= texts.len(),
            all == texts.deep_view(),
            n == terminator_count(raw@),
            strings.len() == i,
            forall|j: int| 0 <= j < i ==> valid_utf8(#[trigger] all[j]),
            forall|j: int| 0 <= j < i ==> (#[trigger] strings[j])@ == decode_utf8(all[j]),
        decreases n - i,
    {
        let mut string = String::new();
        assert(texts[i as int]@ == all[i as int]);
        match chars_to_string(texts[i].as_slice(), &mut string) {
            Ok(()) => {},
            Err(e) => {
                return Err(e);
            },
        }
        strings.push(string);
        i = i + 1;
    }
    assert(strings.deep_view() =~= Seq::new(n as nat, |j: int| decode_utf8(all[j])));
    Ok(strings)
}

/// Whether `text` can stand as one text of a multi-string value that the
/// count recognises: not empty, and every character in the ASCII range and
/// not NUL.
pub open spec fn is_record(text: Seq<char>) -> bool {
    &&& text.len() > 0
    &&& forall|i: int| 0 <= i < text.len() ==> '\u{1}' <= #[trigger] text[i] <= '\u{7f}'
}

/// The raw bytes of one text: each character as a 16-bit unit, low byte
/// first, then a unit of zero.
pub open spec fn encode_record(text: Seq<char>) -> Seq<i8> {
    Seq::new(
        2 * text.len() + 2,
        |j: int|
            if j < 2 * text.len() && j % 2 == 0 {
                text[j / 2] as u8 as i8
            } else {
                0i8
            },
    )
}

/// The raw bytes of texts stored back to back.
pub open spec fn encode_records(records: Seq<Seq<char>>) -> Seq<i8>
    decreases records.len(),
{
    if records.len() == 0 {
        Seq::empty()
    } else {
        encode_records(records.drop_last()) + encode_record(records.last())
    }
}

proof fn lemma_terminators_of_prefix(head: Seq<i8>, tail: Seq<i8>, end: int)
    requires
        end <= head.len(),
    ensures
        terminators_before(head + tail, end) == terminators_before(head, end),
    decreases end,
{
    if end >= 4 {
        lemma_terminators_of_prefix(head, tail, end - 1);
    }
}

proof fn lemma_record_bytes(text: Seq<char>, j: int)
    requires
        is_record(text),
        0 <= j < 2 * text.len() + 2,
    ensures
        encode_record(text)[j] == 0 <==> !(j < 2 * text.len() && j % 2 == 0),
{
    if j < 2 * text.len() && j % 2 == 0 {
        let c = text[j / 2];
        assert('\u{1}' <= c <= '\u{7f}');
        let b = c as u8;
        assert(1 <= b <= 127);
        assert(b as i8 != 0);
    }
}

proof fn lemma_terminators_within_record(head: Seq<i8>, text: Seq<char>, end: int)
    requires
        is_record(text),
        head.len() <= end <= head.len() + 2 * text.len() + 2,
    ensures
        terminators_before(head + encode_record(text), end) == terminators_before(
            head,
            head.len() as int,
        ) + if end == head.len() + 2 * text.len() + 2 {
            1nat
        } else {
            0nat
        },
    decreases end,
{
    let tail = encode_record(text);
    let all = head + tail;
    let m = text.len() as int;
    let h = head.len() as int;
    if end == h {
        lemma_terminators_of_prefix(head, tail, end);
    } else {
        lemma_terminators_within_record(head, text, end - 1);
        assert(all[end - 1] == tail[end - 1 - h]);
        lemma_record_bytes(text, end - 1 - h);
        if end - 2 >= h {
            assert(all[end - 2] == tail[end - 2 - h]);
            lemma_record_bytes(text, end - 2 - h);
        }
        if end - 3 >= h {
            assert(all[end - 3] == tail[end - 3 - h]);
            lemma_record_bytes(text, end - 3 - h);
        }
        if end == h + 2 * m + 2 {
            assert(is_terminator(all, end));
        } else {
            // one of the last three bytes is the low byte of a character
            let k = end - 1 - h;
            if k < 2 * m && k % 2 == 0 {
                assert(all[end - 1] != 0);
            } else if k < 2 * m {
                assert(k - 1 >= 0 && (k - 1) % 2 == 0);
                assert(all[end - 2] != 0);
            } else {
                assert(k == 2 * m);
                assert(k - 2 >= 0 && (k - 2) % 2 == 0);
                assert(all[end - 3] != 0);
            }
            assert(!is_terminator(all, end));
        }
    }
}

proof fn lemma_terminators_of_records(records: Seq<Seq<char>>)
    requires
        forall|i: int| 0 <= i < records.len() ==> is_record(#[trigger] records[i]),
    ensures
        terminator_count(encode_records(records)) == records.len(),
    decreases records.len(),
{
    if records.len() > 0 {
        let head = encode_records(records.drop_last());
        let text = records.last();
        assert forall|i: int| 0 <= i < records.drop_last().len() implies is_record(
            #[trigger] records.drop_last()[i],
        ) by {
            assert(records.drop_last()[i] == records[i]);
        }
        lemma_terminators_of_records(records.drop_last());
        lemma_terminators_within_record(head, text, (head.len() + 2 * text.len() + 2) as int);
        assert((head + encode_record(text)).len() == head.len() + 2 * text.len() + 2);
    }
}

/// Texts stored back to back come out again, as many and in their order:
/// where each of `records` is a text that the count recognises, the raw
/// bytes are those texts back to back, and the engine hands each text back
/// as its UTF-8 bytes, the decoded list is `records`.
pub proof fn lemma_records_recovered(records: Seq<Seq<char>>)
    requires
        forall|i: int| 0 <= i < records.len() ==> is_record(#[trigger] records[i]),
    ensures
        terminator_count(encode_records(records)) == records.len(),
        strings_of(
            encode_records(records),
            Seq::new(records.len(), |i: int| encode_utf8(records[i])),
        ) == Ok::<Seq<Seq<char>>, ErrorView>(records),
{
    broadcast use {vstd::utf8::encode_utf8_valid_utf8, vstd::utf8::encode_utf8_decode_utf8};

    lemma_terminators_of_records(records);
    let raw = encode_records(records);
    let texts = Seq::new(records.len(), |i: int| encode_utf8(records[i]));
    let n = terminator_count(raw) as int;
    assert(n == texts.len());
    assert forall|i: int| 0 <= i < n implies valid_utf8(#[trigger] texts[i]) by {
        assert(texts[i] == encode_utf8(records[i]));
    }
    assert(Seq::new(n as nat, |i: int| decode_utf8(texts[i])) =~= records);
}

} // verus!
