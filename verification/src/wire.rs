//! The byte layout of the fields of a record.
//!
//! Integers are little-endian. A text is its length in bytes as a `u32`,
//! followed by its UTF-8 bytes. A list is the number of its items as a `u32`,
//! followed by the items. Each layout is given twice: as the bytes of a value
//! (`*_bytes`) and as the reading of a value off the front of a run of bytes
//! (`take_*`), which answers with the value and the bytes that follow it.
//! The lemmas say that reading gives back what was written.

use crate::lists::text_views;
use vstd::bytes::*;
use vstd::prelude::*;
use vstd::slice::*;
use vstd::string::*;
use vstd::utf8::*;

verus! {

/// The bytes of a `u32`.
pub open spec fn u32_bytes(value: u32) -> Seq<u8> {
    spec_u32_to_le_bytes(value)
}

/// The bytes of a `u64`.
pub open spec fn u64_bytes(value: u64) -> Seq<u8> {
    spec_u64_to_le_bytes(value)
}

/// The byte of a flag: one for `true`, zero for `false`.
pub open spec fn flag_bytes(flag: bool) -> Seq<u8> {
    seq![if flag { 1u8 } else { 0u8 }]
}

/// The bytes of an optional `u64`: a flag, then the value if there is one.
pub open spec fn maybe_u64_bytes(value: Option<u64>) -> Seq<u8> {
    match value {
        Some(inner) => flag_bytes(true) + u64_bytes(inner),
        None => flag_bytes(false),
    }
}

/// The bytes of a text.
pub open spec fn text_bytes(text: Seq<char>) -> Seq<u8> {
    u32_bytes(encode_utf8(text).len() as u32) + encode_utf8(text)
}

/// The bytes of the items of a list of numbers, one after the other.
pub open spec fn each_number_bytes(numbers: Seq<u32>) -> Seq<u8>
    decreases numbers.len(),
{
    if numbers.len() == 0 {
        Seq::empty()
    } else {
        u32_bytes(numbers[0]) + each_number_bytes(numbers.skip(1))
    }
}

/// The bytes of a list of numbers.
pub open spec fn numbers_bytes(numbers: Seq<u32>) -> Seq<u8> {
    u32_bytes(numbers.len() as u32) + each_number_bytes(numbers)
}

/// The bytes of the items of a list of texts, one after the other.
pub open spec fn each_text_bytes(texts: Seq<Seq<char>>) -> Seq<u8>
    decreases texts.len(),
{
    if texts.len() == 0 {
        Seq::empty()
    } else {
        text_bytes(texts[0]) + each_text_bytes(texts.skip(1))
    }
}

/// The bytes of a list of texts.
pub open spec fn texts_bytes(texts: Seq<Seq<char>>) -> Seq<u8> {
    u32_bytes(texts.len() as u32) + each_text_bytes(texts)
}

/// The bytes of a whole record: the length of its body, then the body.
pub open spec fn framed(body: Seq<u8>) -> Seq<u8> {
    u32_bytes(body.len() as u32) + body
}

/// The number of bytes that `texts` take as the items of a list.
pub open spec fn each_text_size(texts: Seq<Seq<char>>) -> nat
    decreases texts.len(),
{
    if texts.len() == 0 {
        0
    } else {
        4 + encode_utf8(texts[0]).len() + each_text_size(texts.skip(1))
    }
}

/// Reads a `u32`.
pub open spec fn take_u32(bytes: Seq<u8>) -> Option<(u32, Seq<u8>)> {
    if bytes.len() >= 4 {
        Some((spec_u32_from_le_bytes(bytes.take(4)), bytes.skip(4)))
    } else {
        None
    }
}

/// Reads a `u64`.
pub open spec fn take_u64(bytes: Seq<u8>) -> Option<(u64, Seq<u8>)> {
    if bytes.len() >= 8 {
        Some((spec_u64_from_le_bytes(bytes.take(8)), bytes.skip(8)))
    } else {
        None
    }
}

/// Reads a flag. Only the bytes zero and one are flags.
pub open spec fn take_flag(bytes: Seq<u8>) -> Option<(bool, Seq<u8>)> {
    if bytes.len() >= 1 && bytes[0] <= 1 {
        Some((bytes[0] == 1, bytes.skip(1)))
    } else {
        None
    }
}

/// Reads an optional `u64`.
pub open spec fn take_maybe_u64(bytes: Seq<u8>) -> Option<(Option<u64>, Seq<u8>)> {
    match take_flag(bytes) {
        Some((true, rest)) => match take_u64(rest) {
            Some((inner, rest)) => Some((Some(inner), rest)),
            None => None,
        },
        Some((false, rest)) => Some((None, rest)),
        None => None,
    }
}

/// Reads a text. The bytes under the length must be well-formed UTF-8.
pub open spec fn take_text(bytes: Seq<u8>) -> Option<(Seq<char>, Seq<u8>)> {
    match take_u32(bytes) {
        Some((len, rest)) => if len <= rest.len() && valid_utf8(rest.take(len as int)) {
            Some((decode_utf8(rest.take(len as int)), rest.skip(len as int)))
        } else {
            None
        },
        None => None,
    }
}

/// Reads `count` numbers, one after the other.
pub open spec fn take_each_number(bytes: Seq<u8>, count: nat) -> Option<(Seq<u32>, Seq<u8>)>
    decreases count,
{
    if count == 0 {
        Some((Seq::empty(), bytes))
    } else {
        match take_u32(bytes) {
            Some((first, rest)) => match take_each_number(rest, (count - 1) as nat) {
                Some((others, rest)) => Some((seq![first] + others, rest)),
                None => None,
            },
            None => None,
        }
    }
}

/// Reads a list of numbers.
pub open spec fn take_numbers(bytes: Seq<u8>) -> Option<(Seq<u32>, Seq<u8>)> {
    match take_u32(bytes) {
        Some((count, rest)) => take_each_number(rest, count as nat),
        None => None,
    }
}

/// Reads `count` texts, one after the other.
pub open spec fn take_each_text(bytes: Seq<u8>, count: nat) -> Option<(Seq<Seq<char>>, Seq<u8>)>
    decreases count,
{
    if count == 0 {
        Some((Seq::empty(), bytes))
    } else {
        match take_text(bytes) {
            Some((first, rest)) => match take_each_text(rest, (count - 1) as nat) {
                Some((others, rest)) => Some((seq![first] + others, rest)),
                None => None,
            },
            None => None,
        }
    }
}

/// Reads a list of texts.
pub open spec fn take_texts(bytes: Seq<u8>) -> Option<(Seq<Seq<char>>, Seq<u8>)> {
    match take_u32(bytes) {
        Some((count, rest)) => take_each_text(rest, count as nat),
        None => None,
    }
}

/// Reads the frame of a record and answers with the body, which must be all
/// that follows the length.
pub open spec fn take_frame(bytes: Seq<u8>) -> Option<Seq<u8>> {
    match take_u32(bytes) {
        Some((len, body)) => if body.len() == len {
            Some(body)
        } else {
            None
        },
        None => None,
    }
}

/// A `u32` takes four bytes, and reading them gives the `u32` back.
pub proof fn lemma_take_u32(value: u32, rest: Seq<u8>)
    ensures
        u32_bytes(value).len() == 4,
        take_u32(u32_bytes(value) + rest) == Some((value, rest)),
{
    lemma_auto_spec_u32_to_from_le_bytes();
    let all = u32_bytes(value) + rest;
    assert(all.take(4) =~= u32_bytes(value));
    assert(all.skip(4) =~= rest);
}

/// A `u64` takes eight bytes, and reading them gives the `u64` back.
pub proof fn lemma_take_u64(value: u64, rest: Seq<u8>)
    ensures
        u64_bytes(value).len() == 8,
        take_u64(u64_bytes(value) + rest) == Some((value, rest)),
{
    lemma_auto_spec_u64_to_from_le_bytes();
    let all = u64_bytes(value) + rest;
    assert(all.take(8) =~= u64_bytes(value));
    assert(all.skip(8) =~= rest);
}

/// Reading a flag gives the flag back.
pub proof fn lemma_take_flag(flag: bool, rest: Seq<u8>)
    ensures
        take_flag(flag_bytes(flag) + rest) == Some((flag, rest)),
{
    let all = flag_bytes(flag) + rest;
    assert(all.skip(1) =~= rest);
}

/// Reading an optional `u64` gives it back.
pub proof fn lemma_take_maybe_u64(value: Option<u64>, rest: Seq<u8>)
    ensures
        maybe_u64_bytes(value).len() == (if value is Some {
            9nat
        } else {
            1nat
        }),
        take_maybe_u64(maybe_u64_bytes(value) + rest) == Some((value, rest)),
{
    match value {
        Some(inner) => {
            lemma_take_u64(inner, rest);
            lemma_take_flag(true, u64_bytes(inner) + rest);
            assert(maybe_u64_bytes(value) + rest =~= flag_bytes(true) + (u64_bytes(inner) + rest));
        },
        None => {
            lemma_take_flag(false, rest);
        },
    }
}

/// Reading a text gives the text back, as long as its length fits the `u32`
/// in front of it.
pub proof fn lemma_take_text(text: Seq<char>, rest: Seq<u8>)
    requires
        encode_utf8(text).len() <= u32::MAX,
    ensures
        text_bytes(text).len() == 4 + encode_utf8(text).len(),
        take_text(text_bytes(text) + rest) == Some((text, rest)),
{
    let utf8 = encode_utf8(text);
    let len = utf8.len() as u32;
    lemma_take_u32(len, utf8 + rest);
    assert(text_bytes(text) + rest =~= u32_bytes(len) + (utf8 + rest));
    assert((utf8 + rest).take(len as int) =~= utf8);
    assert((utf8 + rest).skip(len as int) =~= rest);
    encode_utf8_valid_utf8(text);
    encode_utf8_decode_utf8(text);
}

/// Reading as many numbers as were written gives them back.
pub proof fn lemma_take_each_number(numbers: Seq<u32>, rest: Seq<u8>)
    ensures
        each_number_bytes(numbers).len() == 4 * numbers.len(),
        take_each_number(each_number_bytes(numbers) + rest, numbers.len()) == Some(
            (numbers, rest),
        ),
    decreases numbers.len(),
{
    if numbers.len() == 0 {
        assert(each_number_bytes(numbers) + rest =~= rest);
        assert(numbers =~= Seq::empty());
    } else {
        let others = numbers.skip(1);
        lemma_take_each_number(others, rest);
        lemma_take_u32(numbers[0], each_number_bytes(others) + rest);
        assert(each_number_bytes(numbers) + rest =~= u32_bytes(numbers[0]) + (each_number_bytes(
            others,
        ) + rest));
        assert(seq![numbers[0]] + others =~= numbers);
    }
}

/// Reading a list of numbers gives the list back, as long as the number of
/// its items fits the `u32` in front of them.
pub proof fn lemma_take_numbers(numbers: Seq<u32>, rest: Seq<u8>)
    requires
        numbers.len() <= u32::MAX,
    ensures
        numbers_bytes(numbers).len() == 4 + 4 * numbers.len(),
        take_numbers(numbers_bytes(numbers) + rest) == Some((numbers, rest)),
{
    let count = numbers.len() as u32;
    lemma_take_each_number(numbers, rest);
    lemma_take_u32(count, each_number_bytes(numbers) + rest);
    assert(numbers_bytes(numbers) + rest =~= u32_bytes(count) + (each_number_bytes(numbers)
        + rest));
}

/// Reading as many texts as were written gives them back, as long as they
/// are short enough to be written.
pub proof fn lemma_take_each_text(texts: Seq<Seq<char>>, rest: Seq<u8>)
    requires
        each_text_size(texts) <= u32::MAX,
    ensures
        each_text_bytes(texts).len() == each_text_size(texts),
        take_each_text(each_text_bytes(texts) + rest, texts.len()) == Some((texts, rest)),
    decreases texts.len(),
{
    if texts.len() == 0 {
        assert(each_text_bytes(texts) + rest =~= rest);
        assert(texts =~= Seq::empty());
    } else {
        let others = texts.skip(1);
        lemma_take_each_text(others, rest);
        lemma_take_text(texts[0], each_text_bytes(others) + rest);
        assert(each_text_bytes(texts) + rest =~= text_bytes(texts[0]) + (each_text_bytes(others)
            + rest));
        assert(seq![texts[0]] + others =~= texts);
    }
}

/// Reading a list of texts gives the list back, as long as the texts are
/// short enough to be written.
pub proof fn lemma_take_texts(texts: Seq<Seq<char>>, rest: Seq<u8>)
    requires
        each_text_size(texts) <= u32::MAX,
    ensures
        texts_bytes(texts).len() == 4 + each_text_size(texts),
        take_texts(texts_bytes(texts) + rest) == Some((texts, rest)),
{
    lemma_each_text_size_counts(texts);
    let count = texts.len() as u32;
    lemma_take_each_text(texts, rest);
    lemma_take_u32(count, each_text_bytes(texts) + rest);
    assert(texts_bytes(texts) + rest =~= u32_bytes(count) + (each_text_bytes(texts) + rest));
}

/// Every text takes at least the four bytes of its length.
pub proof fn lemma_each_text_size_counts(texts: Seq<Seq<char>>)
    ensures
        4 * texts.len() <= each_text_size(texts),
    decreases texts.len(),
{
    if texts.len() > 0 {
        lemma_each_text_size_counts(texts.skip(1));
    }
}

/// One more text at the end of a list adds its own bytes at the end.
pub proof fn lemma_each_text_push(texts: Seq<Seq<char>>, last: Seq<char>)
    ensures
        each_text_bytes(texts.push(last)) == each_text_bytes(texts) + text_bytes(last),
        each_text_size(texts.push(last)) == each_text_size(texts) + 4 + encode_utf8(last).len(),
    decreases texts.len(),
{
    let longer = texts.push(last);
    if texts.len() == 0 {
        assert(longer.skip(1) =~= Seq::<Seq<char>>::empty());
        assert(each_text_bytes(longer.skip(1)) =~= Seq::<u8>::empty());
        assert(each_text_bytes(longer) =~= text_bytes(last));
        assert(each_text_bytes(texts) + text_bytes(last) =~= text_bytes(last));
        assert(each_text_size(longer.skip(1)) == 0);
        assert(longer[0] == last);
    } else {
        lemma_each_text_push(texts.skip(1), last);
        assert(longer.skip(1) =~= texts.skip(1).push(last));
        assert(longer[0] == texts[0]);
        assert(each_text_bytes(longer) =~= each_text_bytes(texts) + text_bytes(last));
    }
}

/// One more number at the end of a list adds its own bytes at the end.
pub proof fn lemma_each_number_push(numbers: Seq<u32>, last: u32)
    ensures
        each_number_bytes(numbers.push(last)) == each_number_bytes(numbers) + u32_bytes(last),
    decreases numbers.len(),
{
    let longer = numbers.push(last);
    if numbers.len() == 0 {
        assert(longer.skip(1) =~= Seq::<u32>::empty());
        assert(each_number_bytes(longer.skip(1)) =~= Seq::<u8>::empty());
        assert(each_number_bytes(longer) =~= u32_bytes(last));
        assert(each_number_bytes(numbers) + u32_bytes(last) =~= u32_bytes(last));
    } else {
        lemma_each_number_push(numbers.skip(1), last);
        assert(longer.skip(1) =~= numbers.skip(1).push(last));
        assert(each_number_bytes(longer) =~= each_number_bytes(numbers) + u32_bytes(last));
    }
}

/// Reading the frame of a framed body gives the body back, as long as its
/// length fits the `u32` in front of it.
pub proof fn lemma_take_frame(body: Seq<u8>)
    requires
        body.len() <= u32::MAX,
    ensures
        framed(body).len() == 4 + body.len(),
        take_frame(framed(body)) == Some(body),
{
    lemma_take_u32(body.len() as u32, body);
}

/// The first texts of a list take no more bytes than the whole list.
pub proof fn lemma_each_text_size_prefix(texts: Seq<Seq<char>>, count: int)
    requires
        0 <= count <= texts.len(),
    ensures
        each_text_size(texts.take(count)) <= each_text_size(texts),
    decreases texts.len() - count,
{
    if count < texts.len() {
        lemma_each_text_size_prefix(texts, count + 1);
        lemma_each_text_push(texts.take(count), texts[count]);
        assert(texts.take(count + 1) =~= texts.take(count).push(texts[count]));
    } else {
        assert(texts.take(count) =~= texts);
    }
}

/// No text of a list takes more bytes than the whole list.
pub proof fn lemma_each_text_size_bounds(texts: Seq<Seq<char>>, at: int)
    requires
        0 <= at < texts.len(),
    ensures
        4 + encode_utf8(texts[at]).len() <= each_text_size(texts),
    decreases texts.len(),
{
    if at > 0 {
        lemma_each_text_size_bounds(texts.skip(1), at - 1);
    }
}

/// What a reader that started at `at` and answered `read` has to do with
/// `taken`, the reading of the same value off the bytes from `at` on: both
/// fail, or both give the same value and stop at the same place.
pub open spec fn reads<T>(
    read: Option<(T, usize)>,
    bytes: Seq<u8>,
    at: usize,
    taken: Option<(T, Seq<u8>)>,
) -> bool {
    match read {
        Some((value, next)) => at <= next <= bytes.len() && taken == Some(
            (value, bytes.skip(next as int)),
        ),
        None => taken is None,
    }
}

/// The same for a text, which is read into a `String`.
pub open spec fn reads_text(
    read: Option<(String, usize)>,
    bytes: Seq<u8>,
    at: usize,
    taken: Option<(Seq<char>, Seq<u8>)>,
) -> bool {
    match read {
        Some((text, next)) => at <= next <= bytes.len() && taken == Some(
            (text@, bytes.skip(next as int)),
        ),
        None => taken is None,
    }
}

/// The same for a list of numbers, which is read into a `Vec`.
pub open spec fn reads_numbers(
    read: Option<(Vec<u32>, usize)>,
    bytes: Seq<u8>,
    at: usize,
    taken: Option<(Seq<u32>, Seq<u8>)>,
) -> bool {
    match read {
        Some((numbers, next)) => at <= next <= bytes.len() && taken == Some(
            (numbers@, bytes.skip(next as int)),
        ),
        None => taken is None,
    }
}

/// The same for a list of texts, which is read into a `Vec` of `String`s.
pub open spec fn reads_texts(
    read: Option<(Vec<String>, usize)>,
    bytes: Seq<u8>,
    at: usize,
    taken: Option<(Seq<Seq<char>>, Seq<u8>)>,
) -> bool {
    match read {
        Some((texts, next)) => at <= next <= bytes.len() && taken == Some(
            (text_views(texts@), bytes.skip(next as int)),
        ),
        None => taken is None,
    }
}

/// A reading of the rest of a list, with the items read so far put in front.
pub open spec fn after<T>(front: Seq<T>, taken: Option<(Seq<T>, Seq<u8>)>) -> Option<
    (Seq<T>, Seq<u8>),
> {
    match taken {
        Some((others, rest)) => Some((front + others, rest)),
        None => None,
    }
}

/// Appends `bytes` to `out`.
pub(crate) fn put_bytes(out: &mut Vec<u8>, bytes: &[u8])
    ensures
        final(out)@ == old(out)@ + bytes@,
{
    let ghost before = out@;
    let mut i: usize = 0;
    while i < bytes.len()
        invariant
            i <= bytes@.len(),
            out@ == before + bytes@.take(i as int),
        decreases bytes@.len() - i,
    {
        out.push(bytes[i]);
        i += 1;
        assert(bytes@.take(i as int) =~= bytes@.take(i - 1).push(bytes@[i - 1]));
    }
    assert(bytes@.take(i as int) =~= bytes@);
}

/// Appends a `u32` to `out`.
pub(crate) fn put_u32(out: &mut Vec<u8>, value: u32)
    ensures
        final(out)@ == old(out)@ + u32_bytes(value),
{
    let bytes = u32_to_le_bytes(value);
    put_bytes(out, bytes.as_slice());
}

/// Appends a `u64` to `out`.
pub(crate) fn put_u64(out: &mut Vec<u8>, value: u64)
    ensures
        final(out)@ == old(out)@ + u64_bytes(value),
{
    let bytes = u64_to_le_bytes(value);
    put_bytes(out, bytes.as_slice());
}

/// Appends a flag to `out`.
pub(crate) fn put_flag(out: &mut Vec<u8>, flag: bool)
    ensures
        final(out)@ == old(out)@ + flag_bytes(flag),
{
    out.push(if flag { 1u8 } else { 0u8 });
    assert(out@ =~= old(out)@ + flag_bytes(flag));
}

/// Appends an optional `u64` to `out`.
pub(crate) fn put_maybe_u64(out: &mut Vec<u8>, value: Option<u64>)
    ensures
        final(out)@ == old(out)@ + maybe_u64_bytes(value),
{
    match value {
        Some(inner) => {
            put_flag(out, true);
            put_u64(out, inner);
            assert(out@ =~= old(out)@ + maybe_u64_bytes(value));
        },
        None => {
            put_flag(out, false);
        },
    }
}

/// Appends a text to `out`.
pub(crate) fn put_text(out: &mut Vec<u8>, text: &str)
    requires
        encode_utf8(text@).len() <= u32::MAX,
    ensures
        final(out)@ == old(out)@ + text_bytes(text@),
{
    let utf8 = text.as_bytes();
    put_u32(out, utf8.len() as u32);
    put_bytes(out, utf8);
    assert(out@ =~= old(out)@ + text_bytes(text@));
}

/// Appends a list of numbers to `out`.
pub(crate) fn put_numbers(out: &mut Vec<u8>, numbers: &Vec<u32>)
    requires
        numbers@.len() <= u32::MAX,
    ensures
        final(out)@ == old(out)@ + numbers_bytes(numbers@),
{
    let ghost before = out@;
    put_u32(out, numbers.len() as u32);
    let ghost counted = out@;
    let mut i: usize = 0;
    assert(numbers@.take(0) =~= Seq::<u32>::empty());
    while i < numbers.len()
        invariant
            i <= numbers@.len(),
            out@ == counted + each_number_bytes(numbers@.take(i as int)),
        decreases numbers@.len() - i,
    {
        put_u32(out, numbers[i]);
        proof {
            lemma_each_number_push(numbers@.take(i as int), numbers@[i as int]);
            assert(numbers@.take(i + 1) =~= numbers@.take(i as int).push(numbers@[i as int]));
        }
        i += 1;
    }
    assert(numbers@.take(i as int) =~= numbers@);
    assert(out@ =~= before + numbers_bytes(numbers@));
}

/// Appends a list of texts to `out`.
pub(crate) fn put_texts(out: &mut Vec<u8>, texts: &Vec<String>)
    requires
        each_text_size(text_views(texts@)) <= u32::MAX,
    ensures
        final(out)@ == old(out)@ + texts_bytes(text_views(texts@)),
{
    let ghost before = out@;
    let ghost views = text_views(texts@);
    proof {
        lemma_each_text_size_counts(views);
    }
    put_u32(out, texts.len() as u32);
    let ghost counted = out@;
    let mut i: usize = 0;
    assert(views.take(0) =~= Seq::<Seq<char>>::empty());
    while i < texts.len()
        invariant
            i <= texts@.len(),
            views == text_views(texts@),
            each_text_size(views) <= u32::MAX,
            out@ == counted + each_text_bytes(views.take(i as int)),
        decreases texts@.len() - i,
    {
        proof {
            lemma_each_text_size_bounds(views, i as int);
            lemma_each_text_push(views.take(i as int), views[i as int]);
            assert(views.take(i + 1) =~= views.take(i as int).push(views[i as int]));
        }
        put_text(out, texts[i].as_str());
        i += 1;
    }
    assert(views.take(i as int) =~= views);
    assert(out@ =~= before + texts_bytes(views));
}

/// Puts the frame of a record around its body.
pub(crate) fn frame(body: &Vec<u8>) -> (record: Vec<u8>)
    requires
        body@.len() <= u32::MAX,
    ensures
        record@ == framed(body@),
{
    let mut record = Vec::new();
    put_u32(&mut record, body.len() as u32);
    put_bytes(&mut record, body.as_slice());
    assert(record@ =~= framed(body@));
    record
}

/// Reads a `u32` at `at`.
pub(crate) fn read_u32(bytes: &Vec<u8>, at: usize) -> (read: Option<(u32, usize)>)
    requires
        at <= bytes@.len(),
    ensures
        reads(read, bytes@, at, take_u32(bytes@.skip(at as int))),
{
    if bytes.len() - at < 4 {
        return None;
    }
    let value = u32_from_le_bytes(slice_subrange(bytes.as_slice(), at, at + 4));
    assert(bytes@.skip(at as int).take(4) =~= bytes@.subrange(at as int, at + 4));
    assert(bytes@.skip(at as int).skip(4) =~= bytes@.skip(at + 4));
    Some((value, at + 4))
}

/// Reads a `u64` at `at`.
pub(crate) fn read_u64(bytes: &Vec<u8>, at: usize) -> (read: Option<(u64, usize)>)
    requires
        at <= bytes@.len(),
    ensures
        reads(read, bytes@, at, take_u64(bytes@.skip(at as int))),
{
    if bytes.len() - at < 8 {
        return None;
    }
    let value = u64_from_le_bytes(slice_subrange(bytes.as_slice(), at, at + 8));
    assert(bytes@.skip(at as int).take(8) =~= bytes@.subrange(at as int, at + 8));
    assert(bytes@.skip(at as int).skip(8) =~= bytes@.skip(at + 8));
    Some((value, at + 8))
}

/// Reads a flag at `at`.
pub(crate) fn read_flag(bytes: &Vec<u8>, at: usize) -> (read: Option<(bool, usize)>)
    requires
        at <= bytes@.len(),
    ensures
        reads(read, bytes@, at, take_flag(bytes@.skip(at as int))),
{
    if bytes.len() - at < 1 || bytes[at] > 1 {
        return None;
    }
    assert(bytes@.skip(at as int).skip(1) =~= bytes@.skip(at + 1));
    Some((bytes[at] == 1, at + 1))
}

/// Reads an optional `u64` at `at`.
pub(crate) fn read_maybe_u64(bytes: &Vec<u8>, at: usize) -> (read: Option<(Option<u64>, usize)>)
    requires
        at <= bytes@.len(),
    ensures
        reads(read, bytes@, at, take_maybe_u64(bytes@.skip(at as int))),
{
    match read_flag(bytes, at) {
        Some((true, next)) => match read_u64(bytes, next) {
            Some((inner, next)) => Some((Some(inner), next)),
            None => None,
        },
        Some((false, next)) => Some((None, next)),
        None => None,
    }
}

/// Reads a text at `at`.
pub(crate) fn read_text(bytes: &Vec<u8>, at: usize) -> (read: Option<(String, usize)>)
    requires
        at <= bytes@.len(),
    ensures
        reads_text(read, bytes@, at, take_text(bytes@.skip(at as int))),
{
    match read_u32(bytes, at) {
        Some((len, start)) => {
            let len = len as usize;
            if len > bytes.len() - start {
                return None;
            }
            let end = start + len;
            let utf8 = slice_to_vec(slice_subrange(bytes.as_slice(), start, end));
            assert(bytes@.skip(start as int).take(len as int) =~= utf8@);
            assert(bytes@.skip(start as int).skip(len as int) =~= bytes@.skip(end as int));
            match text_of(utf8) {
                Some(text) => Some((text, end)),
                None => None,
            }
        },
        None => None,
    }
}

/// Reads a list of numbers at `at`.
pub(crate) fn read_numbers(bytes: &Vec<u8>, at: usize) -> (read: Option<(Vec<u32>, usize)>)
    requires
        at <= bytes@.len(),
    ensures
        reads_numbers(read, bytes@, at, take_numbers(bytes@.skip(at as int))),
{
    let (count, start) = match read_u32(bytes, at) {
        Some(counted) => counted,
        None => { return None; },
    };
    let ghost whole = take_each_number(bytes@.skip(start as int), count as nat);
    let mut numbers: Vec<u32> = Vec::new();
    let mut next = start;
    let mut done: u32 = 0;
    assert(after(numbers@, whole) =~= whole);
    while done < count
        invariant
            at <= next <= bytes@.len(),
            done <= count,
            numbers@.len() == done,
            take_numbers(bytes@.skip(at as int)) == whole,
            whole == after(
                numbers@,
                take_each_number(bytes@.skip(next as int), (count - done) as nat),
            ),
        decreases count - done,
    {
        match read_u32(bytes, next) {
            Some((number, following)) => {
                proof {
                    let rest = take_each_number(
                        bytes@.skip(following as int),
                        (count - done - 1) as nat,
                    );
                    assert(after(numbers@, after(seq![number], rest)) =~= after(
                        numbers@.push(number),
                        rest,
                    )) by {
                        if let Some((others, left)) = rest {
                            assert(numbers@ + (seq![number] + others) =~= numbers@.push(number)
                                + others);
                        }
                    }
                }
                numbers.push(number);
                next = following;
                done += 1;
            },
            None => { return None; },
        }
    }
    assert(numbers@ + Seq::<u32>::empty() =~= numbers@);
    Some((numbers, next))
}

/// Reads a list of texts at `at`.
pub(crate) fn read_texts(bytes: &Vec<u8>, at: usize) -> (read: Option<(Vec<String>, usize)>)
    requires
        at <= bytes@.len(),
    ensures
        reads_texts(read, bytes@, at, take_texts(bytes@.skip(at as int))),
{
    let (count, start) = match read_u32(bytes, at) {
        Some(counted) => counted,
        None => { return None; },
    };
    let ghost whole = take_each_text(bytes@.skip(start as int), count as nat);
    let mut texts: Vec<String> = Vec::new();
    let mut next = start;
    let mut done: u32 = 0;
    assert(text_views(texts@) =~= Seq::<Seq<char>>::empty());
    assert(after(text_views(texts@), whole) =~= whole);
    while done < count
        invariant
            at <= next <= bytes@.len(),
            done <= count,
            texts@.len() == done,
            take_texts(bytes@.skip(at as int)) == whole,
            whole == after(
                text_views(texts@),
                take_each_text(bytes@.skip(next as int), (count - done) as nat),
            ),
        decreases count - done,
    {
        match read_text(bytes, next) {
            Some((text, following)) => {
                proof {
                    let front = text_views(texts@);
                    let rest = take_each_text(
                        bytes@.skip(following as int),
                        (count - done - 1) as nat,
                    );
                    assert(after(front, after(seq![text@], rest)) =~= after(
                        front.push(text@),
                        rest,
                    )) by {
                        if let Some((others, left)) = rest {
                            assert(front + (seq![text@] + others) =~= front.push(text@) + others);
                        }
                    }
                    assert(text_views(texts@.push(text)) =~= front.push(text@));
                }
                texts.push(text);
                next = following;
                done += 1;
            },
            None => { return None; },
        }
    }
    assert(text_views(texts@) + Seq::<Seq<char>>::empty() =~= text_views(texts@));
    Some((texts, next))
}

/// Reads the frame of a record and answers with the place where the body
/// starts, if the body is all that follows the length.
pub(crate) fn read_frame(bytes: &Vec<u8>) -> (body_at: Option<usize>)
    ensures
        match body_at {
            Some(start) => start <= bytes@.len() && take_frame(bytes@) == Some(
                bytes@.skip(start as int),
            ),
            None => take_frame(bytes@) is None,
        },
{
    assert(bytes@.skip(0) =~= bytes@);
    match read_u32(bytes, 0) {
        Some((len, start)) => {
            if bytes.len() - start == len as usize {
                Some(start)
            } else {
                None
            }
        },
        None => None,
    }
}

/// The number of bytes that `texts` take as the items of a list, unless it
/// is above `limit`.
pub(crate) fn measure_texts(texts: &Vec<String>, limit: usize) -> (size: Option<usize>)
    ensures
        match size {
            Some(size) => size == each_text_size(text_views(texts@)) && size <= limit,
            None => each_text_size(text_views(texts@)) > limit,
        },
{
    let ghost views = text_views(texts@);
    let mut size: usize = 0;
    let mut at: usize = 0;
    assert(views.take(0) =~= Seq::<Seq<char>>::empty());
    while at < texts.len()
        invariant
            at <= texts@.len(),
            views == text_views(texts@),
            size == each_text_size(views.take(at as int)),
            size <= limit,
        decreases texts@.len() - at,
    {
        let len = texts[at].as_str().as_bytes().len();
        proof {
            lemma_each_text_push(views.take(at as int), views[at as int]);
            assert(views.take(at + 1) =~= views.take(at as int).push(views[at as int]));
            lemma_each_text_size_prefix(views, at + 1);
        }
        if limit - size < 4 || len > limit - size - 4 {
            return None;
        }
        size = size + 4 + len;
        at += 1;
    }
    assert(views.take(at as int) =~= views);
    Some(size)
}

/// Calls `String::from_utf8`, which turns bytes that are well-formed UTF-8
/// into the `String` they spell and refuses all other bytes.
#[verifier::external_body]
fn text_of(utf8: Vec<u8>) -> (text: Option<String>)
    ensures
        match text {
            Some(text) => valid_utf8(utf8@) && text@ == decode_utf8(utf8@),
            None => !valid_utf8(utf8@),
        },
{
    String::from_utf8(utf8).ok()
}

} // verus!
