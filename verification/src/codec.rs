//! The byte form of stored records: a record is a list of fields, and a list
//! of fields is written as its length followed by each field behind its own
//! length. Lengths are eight bytes, least significant first.

use crate::identity::copy_bytes;
use vstd::bytes::*;
use vstd::prelude::*;
use vstd::slice::*;
use vstd::string::*;
use vstd::utf8::*;

verus! {

/// The byte strings that a vector of byte vectors holds.
pub open spec fn field_views(fields: Seq<Vec<u8>>) -> Seq<Seq<u8>> {
    Seq::new(fields.len(), |i: int| fields[i]@)
}

/// The fields one after another, each behind its length.
pub open spec fn frame_items(fields: Seq<Seq<u8>>) -> Seq<u8>
    decreases fields.len(),
{
    if fields.len() == 0 {
        Seq::empty()
    } else {
        spec_u64_to_le_bytes(fields[0].len() as u64) + fields[0] + frame_items(
            fields.drop_first(),
        )
    }
}

/// The byte form of a list of fields.
pub open spec fn frame(fields: Seq<Seq<u8>>) -> Seq<u8> {
    spec_u64_to_le_bytes(fields.len() as u64) + frame_items(fields)
}

/// Reads exactly `count` fields that fill `bytes` to its end.
pub open spec fn unframe_items(count: nat, bytes: Seq<u8>) -> Option<Seq<Seq<u8>>>
    decreases count,
{
    if count == 0 {
        if bytes.len() == 0 {
            Some(Seq::empty())
        } else {
            None
        }
    } else if bytes.len() < 8 {
        None
    } else {
        let len = spec_u64_from_le_bytes(bytes.subrange(0, 8)) as int;
        if bytes.len() - 8 < len {
            None
        } else {
            match unframe_items((count - 1) as nat, bytes.skip(8 + len)) {
                Some(rest) => Some(seq![bytes.subrange(8, 8 + len)] + rest),
                None => None,
            }
        }
    }
}

/// The list of fields that `bytes` is the byte form of, if it is one.
pub open spec fn unframe(bytes: Seq<u8>) -> Option<Seq<Seq<u8>>> {
    if bytes.len() < 8 {
        None
    } else {
        unframe_items(spec_u64_from_le_bytes(bytes.subrange(0, 8)) as nat, bytes.skip(8))
    }
}

/// Whether the list and each of its fields have a length that eight bytes
/// can hold.
pub open spec fn frameable(fields: Seq<Seq<u8>>) -> bool {
    &&& fields.len() <= u64::MAX
    &&& forall|i: int| 0 <= i < fields.len() ==> (#[trigger] fields[i]).len() <= u64::MAX
}

proof fn lemma_unframe_items(fields: Seq<Seq<u8>>)
    requires
        frameable(fields),
    ensures
        unframe_items(fields.len(), frame_items(fields)) == Some(fields),
    decreases fields.len(),
{
    lemma_auto_spec_u64_to_from_le_bytes();
    if fields.len() > 0 {
        let head = fields[0];
        let tail = fields.drop_first();
        let bytes = frame_items(fields);
        let len_bytes = spec_u64_to_le_bytes(head.len() as u64);
        assert(frameable(tail)) by {
            assert forall|i: int| 0 <= i < tail.len() implies (#[trigger] tail[i]).len()
                <= u64::MAX by {
                assert(tail[i] == fields[i + 1]);
            }
        }
        lemma_unframe_items(tail);
        assert(bytes.subrange(0, 8) =~= len_bytes);
        assert(bytes.subrange(8, 8 + head.len() as int) =~= head);
        assert(bytes.skip(8 + head.len() as int) =~= frame_items(tail));
        assert(seq![head] + tail =~= fields);
    }
}

/// Every list that can be framed is read back from its byte form.
pub proof fn lemma_unframe_frame(fields: Seq<Seq<u8>>)
    requires
        frameable(fields),
    ensures
        unframe(frame(fields)) == Some(fields),
{
    lemma_auto_spec_u64_to_from_le_bytes();
    lemma_unframe_items(fields);
    let bytes = frame(fields);
    assert(bytes.subrange(0, 8) =~= spec_u64_to_le_bytes(fields.len() as u64));
    assert(bytes.skip(8) =~= frame_items(fields));
}

fn append_bytes(out: &mut Vec<u8>, bytes: &Vec<u8>)
    ensures
        final(out)@ == old(out)@ + bytes@,
{
    let mut i: usize = 0;
    while i < bytes.len()
        invariant
            i <= bytes@.len(),
            out@ == old(out)@ + bytes@.subrange(0, i as int),
        decreases bytes@.len() - i,
    {
        out.push(bytes[i]);
        assert(out@ =~= old(out)@ + bytes@.subrange(0, i + 1));
        i += 1;
    }
    assert(bytes@.subrange(0, bytes@.len() as int) =~= bytes@);
}

/// Writes a list of fields in its byte form.
pub fn frame_fields(fields: &Vec<Vec<u8>>) -> (bytes: Vec<u8>)
    ensures
        bytes@ == frame(field_views(fields@)),
        unframe(bytes@) == Some(field_views(fields@)),
{
    let ghost all = field_views(fields@);
    let mut out: Vec<u8> = u64_to_le_bytes(fields.len() as u64);
    let mut i: usize = 0;
    assert(all.skip(0) =~= all);
    while i < fields.len()
        invariant
            i <= fields@.len(),
            all == field_views(fields@),
            out@ + frame_items(all.skip(i as int)) == frame(all),
        decreases fields@.len() - i,
    {
        let field = &fields[i];
        let len_bytes = u64_to_le_bytes(field.len() as u64);
        let ghost before = out@;
        append_bytes(&mut out, &len_bytes);
        append_bytes(&mut out, field);
        proof {
            let tail = all.skip(i as int);
            assert(tail[0] == field@);
            assert(tail.drop_first() =~= all.skip(i + 1));
            assert(out@ + frame_items(all.skip(i + 1)) =~= before + frame_items(tail));
        }
        i += 1;
    }
    proof {
        assert(all.skip(i as int) =~= Seq::<Seq<u8>>::empty());
        assert(out@ =~= frame(all));
        assert forall|j: int| 0 <= j < all.len() implies (#[trigger] all[j]).len() <= u64::MAX by {
            assert(all[j] == fields@[j]@);
            assert(fields@[j].len() == fields@[j]@.len());
        }
        lemma_unframe_frame(all);
    }
    out
}

/// Reads a list of fields back from its byte form, or `None` when `bytes`
/// is not the byte form of any list.
pub fn unframe_fields(bytes: &Vec<u8>) -> (fields: Option<Vec<Vec<u8>>>)
    ensures
        match fields {
            Some(list) => unframe(bytes@) == Some(field_views(list@)),
            None => unframe(bytes@) is None,
        },
{
    if bytes.len() < 8 {
        return None;
    }
    let count = u64_from_le_bytes(slice_subrange(bytes.as_slice(), 0, 8));
    let mut out: Vec<Vec<u8>> = Vec::new();
    let mut pos: usize = 8;
    let mut i: u64 = 0;
    while i < count
        invariant
            i <= count,
            8 <= pos <= bytes@.len(),
            unframe(bytes@) == unframe_items(count as nat, bytes@.skip(8)),
            unframe_items(count as nat, bytes@.skip(8)) == match unframe_items(
                (count - i) as nat,
                bytes@.skip(pos as int),
            ) {
                Some(rest) => Some(field_views(out@) + rest),
                None => None,
            },
        decreases count - i,
    {
        let ghost here = bytes@.skip(pos as int);
        if bytes.len() - pos < 8 {
            return None;
        }
        let len = u64_from_le_bytes(slice_subrange(bytes.as_slice(), pos, pos + 8));
        assert(bytes@.subrange(pos as int, pos + 8) =~= here.subrange(0, 8));
        if len > (bytes.len() - pos - 8) as u64 {
            return None;
        }
        let start: usize = pos + 8;
        let end: usize = start + len as usize;
        let field = slice_to_vec(slice_subrange(bytes.as_slice(), start, end));
        proof {
            assert(field@ =~= here.subrange(8, 8 + len));
            assert(here.skip(8 + len) =~= bytes@.skip(end as int));
            let ghost grown = field_views(out@.push(field));
            assert(grown =~= field_views(out@) + seq![field@]);
            assert forall|rest: Seq<Seq<u8>>|
                field_views(out@) + (seq![field@] + rest) == grown + rest by {
                assert(field_views(out@) + (seq![field@] + rest) =~= grown + rest);
            }
        }
        out.push(field);
        pos = end;
        i += 1;
    }
    if pos != bytes.len() {
        return None;
    }
    proof {
        assert(bytes@.skip(pos as int) =~= Seq::<u8>::empty());
        assert(field_views(out@) + Seq::<Seq<u8>>::empty() =~= field_views(out@));
    }
    Some(out)
}

/// The UTF-8 bytes of a text.
pub fn text_bytes(text: &String) -> (bytes: Vec<u8>)
    ensures
        bytes@ == encode_utf8(text@),
        valid_utf8(bytes@),
        decode_utf8(bytes@) == text@,
{
    proof {
        encode_utf8_valid_utf8(text@);
        encode_utf8_decode_utf8(text@);
    }
    text.as_str().as_bytes_vec()
}

/// The field that holds a number.
pub fn number_field(value: u64) -> (field: Vec<u8>)
    ensures
        field@ == spec_u64_to_le_bytes(value),
        number_of(field@) == Some(value),
{
    proof {
        lemma_auto_spec_u64_to_from_le_bytes();
    }
    u64_to_le_bytes(value)
}

/// The number that an eight-byte field holds.
pub open spec fn number_of(field: Seq<u8>) -> Option<u64> {
    if field.len() == 8 {
        Some(spec_u64_from_le_bytes(field))
    } else {
        None
    }
}

/// Reads the number that a field holds.
pub fn field_number(field: &Vec<u8>) -> (value: Option<u64>)
    ensures
        value == number_of(field@),
{
    if field.len() == 8 {
        Some(u64_from_le_bytes(field.as_slice()))
    } else {
        None
    }
}

/// The field that holds a wide number.
pub fn wide_number_field(value: u128) -> (field: Vec<u8>)
    ensures
        wide_number_of(field@) == Some(value),
{
    proof {
        lemma_auto_spec_u128_to_from_le_bytes();
    }
    u128_to_le_bytes(value)
}

/// The wide number that a sixteen-byte field holds.
pub open spec fn wide_number_of(field: Seq<u8>) -> Option<u128> {
    if field.len() == 16 {
        Some(spec_u128_from_le_bytes(field))
    } else {
        None
    }
}

/// Reads the wide number that a field holds.
pub fn field_wide_number(field: &Vec<u8>) -> (value: Option<u128>)
    ensures
        value == wide_number_of(field@),
{
    if field.len() == 16 {
        Some(u128_from_le_bytes(field.as_slice()))
    } else {
        None
    }
}

/// The field that holds a number or nothing.
pub fn optional_number_field(value: Option<u64>) -> (field: Vec<u8>)
    ensures
        optional_number_of(field@) == Some(value),
{
    match value {
        Some(number) => number_field(number),
        None => Vec::new(),
    }
}

/// What a field for a number or nothing holds.
pub open spec fn optional_number_of(field: Seq<u8>) -> Option<Option<u64>> {
    if field.len() == 0 {
        Some(None)
    } else if field.len() == 8 {
        Some(Some(spec_u64_from_le_bytes(field)))
    } else {
        None
    }
}

/// Reads a field for a number or nothing.
pub fn field_optional_number(field: &Vec<u8>) -> (value: Option<Option<u64>>)
    ensures
        value == optional_number_of(field@),
{
    if field.len() == 0 {
        Some(None)
    } else if field.len() == 8 {
        Some(Some(u64_from_le_bytes(field.as_slice())))
    } else {
        None
    }
}

/// The field that holds one byte.
pub fn tag_field(tag: u8) -> (field: Vec<u8>)
    ensures
        field@ == seq![tag],
{
    let mut field: Vec<u8> = Vec::new();
    field.push(tag);
    field
}

/// The truth value that a one-byte field holds.
pub open spec fn flag_of(field: Seq<u8>) -> Option<bool> {
    if field.len() == 1 && field[0] == 0 {
        Some(false)
    } else if field.len() == 1 && field[0] == 1 {
        Some(true)
    } else {
        None
    }
}

/// The field that holds a truth value.
pub fn flag_field(flag: bool) -> (field: Vec<u8>)
    ensures
        flag_of(field@) == Some(flag),
{
    if flag {
        tag_field(1)
    } else {
        tag_field(0)
    }
}

/// Reads the truth value that a field holds.
pub fn field_flag(field: &Vec<u8>) -> (flag: Option<bool>)
    ensures
        flag == flag_of(field@),
{
    if field.len() == 1 && field[0] == 0 {
        Some(false)
    } else if field.len() == 1 && field[0] == 1 {
        Some(true)
    } else {
        None
    }
}

/// What a field for a truth value or nothing holds.
pub open spec fn optional_flag_of(field: Seq<u8>) -> Option<Option<bool>> {
    if field.len() == 0 {
        Some(None)
    } else if flag_of(field) is Some {
        Some(flag_of(field))
    } else {
        None
    }
}

/// The field that holds a truth value or nothing.
pub fn optional_flag_field(flag: Option<bool>) -> (field: Vec<u8>)
    ensures
        optional_flag_of(field@) == Some(flag),
{
    match flag {
        Some(value) => flag_field(value),
        None => Vec::new(),
    }
}

/// Reads a field for a truth value or nothing.
pub fn field_optional_flag(field: &Vec<u8>) -> (flag: Option<Option<bool>>)
    ensures
        flag == optional_flag_of(field@),
{
    if field.len() == 0 {
        Some(None)
    } else {
        match field_flag(field) {
            Some(value) => Some(Some(value)),
            None => None,
        }
    }
}

/// The text that a field holds.
pub open spec fn text_of(field: Seq<u8>) -> Option<Seq<char>> {
    if valid_utf8(field) {
        Some(decode_utf8(field))
    } else {
        None
    }
}

/// Reads the text that a field holds.
pub fn field_text(field: &Vec<u8>) -> (text: Option<String>)
    ensures
        match text {
            Some(t) => text_of(field@) == Some(t@),
            None => text_of(field@) is None,
        },
{
    string_from_utf8(copy_bytes(field))
}

/// What a field for a text or nothing holds: a zero byte for nothing, a
/// one byte and the UTF-8 form for a text.
pub open spec fn optional_text_of(field: Seq<u8>) -> Option<Option<Seq<char>>> {
    if field.len() == 1 && field[0] == 0 {
        Some(None)
    } else if field.len() >= 1 && field[0] == 1 && valid_utf8(field.skip(1)) {
        Some(Some(decode_utf8(field.skip(1))))
    } else {
        None
    }
}

/// The field that holds a text or nothing.
pub fn optional_text_field(text: &Option<String>) -> (field: Vec<u8>)
    ensures
        optional_text_of(field@) == Some(optional_text_view(*text)),
{
    match text {
        Some(value) => {
            let mut field = tag_field(1);
            let bytes = text_bytes(value);
            append_bytes(&mut field, &bytes);
            assert(field@.skip(1) =~= bytes@);
            field
        },
        None => tag_field(0),
    }
}

/// The mathematical value of a text or nothing.
pub open spec fn optional_text_view(text: Option<String>) -> Option<Seq<char>> {
    match text {
        Some(value) => Some(value@),
        None => None,
    }
}

/// Reads a field for a text or nothing.
pub fn field_optional_text(field: &Vec<u8>) -> (text: Option<Option<String>>)
    ensures
        match text {
            Some(value) => optional_text_of(field@) == Some(optional_text_view(value)),
            None => optional_text_of(field@) is None,
        },
{
    if field.len() == 1 && field[0] == 0 {
        return Some(None);
    }
    if field.len() >= 1 && field[0] == 1 {
        let rest = slice_to_vec(slice_subrange(field.as_slice(), 1, field.len()));
        assert(rest@ =~= field@.skip(1));
        match string_from_utf8(rest) {
            Some(value) => Some(Some(value)),
            None => None,
        }
    } else {
        None
    }
}

/// The UTF-8 forms of a list of texts.
pub open spec fn texts_bytes(texts: Seq<Seq<char>>) -> Seq<Seq<u8>> {
    Seq::new(texts.len(), |i: int| encode_utf8(texts[i]))
}

/// The list of texts that a field holds, as a framed list of UTF-8 fields.
pub open spec fn texts_of(field: Seq<u8>) -> Option<Seq<Seq<char>>> {
    match unframe(field) {
        Some(items) => if forall|i: int| 0 <= i < items.len() ==> valid_utf8(#[trigger] items[i]) {
            Some(Seq::new(items.len(), |i: int| decode_utf8(items[i])))
        } else {
            None
        },
        None => None,
    }
}

/// The field that holds a list of texts.
pub fn texts_field(texts: &Vec<String>) -> (field: Vec<u8>)
    ensures
        field@ == frame(texts_bytes(texts.deep_view())),
        texts_of(field@) == Some(texts.deep_view()),
{
    let mut items: Vec<Vec<u8>> = Vec::new();
    let mut i: usize = 0;
    while i < texts.len()
        invariant
            i <= texts@.len(),
            items@.len() == i,
            forall|j: int| 0 <= j < i ==> (#[trigger] items@[j])@ == encode_utf8(texts@[j]@),
        decreases texts@.len() - i,
    {
        items.push(text_bytes(&texts[i]));
        i += 1;
    }
    let field = frame_fields(&items);
    proof {
        let views = field_views(items@);
        assert(views =~= texts_bytes(texts.deep_view()));
        assert forall|j: int| 0 <= j < views.len() implies valid_utf8(#[trigger] views[j]) by {
            encode_utf8_valid_utf8(texts@[j]@);
        }
        assert(Seq::new(views.len(), |j: int| decode_utf8(views[j])) =~= texts.deep_view()) by {
            assert forall|j: int| 0 <= j < views.len() implies decode_utf8(views[j])
                == #[trigger] texts.deep_view()[j] by {
                encode_utf8_decode_utf8(texts@[j]@);
            }
        }
    }
    field
}

/// Reads the list of texts that a field holds.
pub fn field_texts(field: &Vec<u8>) -> (texts: Option<Vec<String>>)
    ensures
        match texts {
            Some(list) => texts_of(field@) == Some(list.deep_view()),
            None => texts_of(field@) is None,
        },
{
    let items = match unframe_fields(field) {
        Some(items) => items,
        None => {
            return None;
        },
    };
    let ghost views = field_views(items@);
    let mut out: Vec<String> = Vec::new();
    let mut i: usize = 0;
    while i < items.len()
        invariant
            i <= items@.len(),
            out@.len() == i,
            views == field_views(items@),
            unframe(field@) == Some(views),
            forall|j: int| 0 <= j < i ==> valid_utf8(#[trigger] views[j]),
            forall|j: int| 0 <= j < i ==> (#[trigger] out@[j])@ == decode_utf8(views[j]),
        decreases items@.len() - i,
    {
        match field_text(&items[i]) {
            Some(text) => {
                out.push(text);
            },
            None => {
                assert(!valid_utf8(views[i as int]));
                return None;
            },
        }
        i += 1;
    }
    assert(out.deep_view() =~= Seq::new(views.len(), |j: int| decode_utf8(views[j])));
    Some(out)
}

/// The list of numbers that a field holds, as a framed list of number
/// fields.
pub open spec fn numbers_of(field: Seq<u8>) -> Option<Seq<u64>> {
    match unframe(field) {
        Some(items) => if forall|i: int| 0 <= i < items.len() ==> (#[trigger] items[i]).len() == 8 {
            Some(Seq::new(items.len(), |i: int| spec_u64_from_le_bytes(items[i])))
        } else {
            None
        },
        None => None,
    }
}

/// The field that holds a list of numbers.
pub fn numbers_field(numbers: &Vec<u64>) -> (field: Vec<u8>)
    ensures
        numbers_of(field@) == Some(numbers@),
{
    let mut items: Vec<Vec<u8>> = Vec::new();
    let mut i: usize = 0;
    while i < numbers.len()
        invariant
            i <= numbers@.len(),
            items@.len() == i,
            forall|j: int| 0 <= j < i ==> number_of((#[trigger] items@[j])@) == Some(numbers@[j]),
        decreases numbers@.len() - i,
    {
        items.push(number_field(numbers[i]));
        i += 1;
    }
    let field = frame_fields(&items);
    proof {
        let views = field_views(items@);
        assert forall|j: int| 0 <= j < views.len() implies (#[trigger] views[j]).len() == 8 by {
            assert(number_of(items@[j]@) == Some(numbers@[j]));
        }
        assert(Seq::new(views.len(), |j: int| spec_u64_from_le_bytes(views[j])) =~= numbers@) by {
            assert forall|j: int| 0 <= j < views.len() implies spec_u64_from_le_bytes(views[j])
                == #[trigger] numbers@[j] by {
                assert(number_of(items@[j]@) == Some(numbers@[j]));
            }
        }
    }
    field
}

/// Reads the list of numbers that a field holds.
pub fn field_numbers(field: &Vec<u8>) -> (numbers: Option<Vec<u64>>)
    ensures
        match numbers {
            Some(list) => numbers_of(field@) == Some(list@),
            None => numbers_of(field@) is None,
        },
{
    let items = unframe_fields(field)?;
    let ghost views = field_views(items@);
    let mut out: Vec<u64> = Vec::new();
    let mut i: usize = 0;
    while i < items.len()
        invariant
            i <= items@.len(),
            out@.len() == i,
            views == field_views(items@),
            unframe(field@) == Some(views),
            forall|j: int| 0 <= j < i ==> (#[trigger] views[j]).len() == 8,
            forall|j: int| 0 <= j < i ==> #[trigger] out@[j] == spec_u64_from_le_bytes(views[j]),
        decreases items@.len() - i,
    {
        match field_number(&items[i]) {
            Some(number) => {
                out.push(number);
            },
            None => {
                assert(views[i as int].len() != 8);
                return None;
            },
        }
        i += 1;
    }
    assert(out@ =~= Seq::new(views.len(), |j: int| spec_u64_from_le_bytes(views[j])));
    Some(out)
}

/// The pairs made of the texts of two lists, position by position.
pub open spec fn zipped(keys: Seq<Seq<char>>, values: Seq<Seq<char>>) -> Seq<
    (Seq<char>, Seq<char>),
> {
    Seq::new(keys.len(), |i: int| (keys[i], values[i]))
}

/// The first and the second texts of a list of pairs, as two lists.
pub fn unzip_texts(pairs: &Vec<(String, String)>) -> (lists: (Vec<String>, Vec<String>))
    ensures
        lists.0@.len() == pairs@.len(),
        lists.1@.len() == pairs@.len(),
        zipped(lists.0.deep_view(), lists.1.deep_view()) == pairs.deep_view(),
{
    let mut keys: Vec<String> = Vec::new();
    let mut values: Vec<String> = Vec::new();
    let mut i: usize = 0;
    while i < pairs.len()
        invariant
            i <= pairs@.len(),
            keys@.len() == i,
            values@.len() == i,
            forall|j: int| 0 <= j < i ==> (#[trigger] keys@[j])@ == pairs@[j].0@,
            forall|j: int| 0 <= j < i ==> (#[trigger] values@[j])@ == pairs@[j].1@,
        decreases pairs@.len() - i,
    {
        keys.push(pairs[i].0.clone());
        values.push(pairs[i].1.clone());
        i += 1;
    }
    assert(zipped(keys.deep_view(), values.deep_view()) =~= pairs.deep_view());
    (keys, values)
}

/// The pairs made of the texts of two lists of one length.
pub fn zip_texts(keys: &Vec<String>, values: &Vec<String>) -> (pairs: Vec<(String, String)>)
    requires
        keys@.len() == values@.len(),
    ensures
        pairs.deep_view() == zipped(keys.deep_view(), values.deep_view()),
{
    let mut pairs: Vec<(String, String)> = Vec::new();
    let mut i: usize = 0;
    while i < keys.len()
        invariant
            i <= keys@.len(),
            keys@.len() == values@.len(),
            pairs@.len() == i,
            forall|j: int|
                0 <= j < i ==> (#[trigger] pairs@[j]).0@ == keys@[j]@ && pairs@[j].1@
                    == values@[j]@,
        decreases keys@.len() - i,
    {
        pairs.push((keys[i].clone(), values[i].clone()));
        i += 1;
    }
    assert(pairs.deep_view() =~= zipped(keys.deep_view(), values.deep_view()));
    pairs
}

/// A copy of a list of texts.
pub fn copy_texts(texts: &Vec<String>) -> (copy: Vec<String>)
    ensures
        copy.deep_view() == texts.deep_view(),
{
    let mut copy: Vec<String> = Vec::new();
    let mut i: usize = 0;
    while i < texts.len()
        invariant
            i <= texts@.len(),
            copy@.len() == i,
            forall|j: int| 0 <= j < i ==> (#[trigger] copy@[j])@ == texts@[j]@,
        decreases texts@.len() - i,
    {
        copy.push(texts[i].clone());
        i += 1;
    }
    assert(copy.deep_view() =~= texts.deep_view());
    copy
}

/// A copy of a list of pairs of texts.
pub fn copy_pairs(pairs: &Vec<(String, String)>) -> (copy: Vec<(String, String)>)
    ensures
        copy.deep_view() == pairs.deep_view(),
{
    let (keys, values) = unzip_texts(pairs);
    zip_texts(&keys, &values)
}

/// A copy of a text or nothing.
pub fn copy_optional_text(text: &Option<String>) -> (copy: Option<String>)
    ensures
        optional_text_view(copy) == optional_text_view(*text),
{
    match text {
        Some(value) => Some(value.clone()),
        None => None,
    }
}

/// `String::from_utf8`: it succeeds exactly on well-formed UTF-8, and the
/// string it gives then has the given bytes as its UTF-8 form.
#[verifier::external_body]
pub(crate) fn string_from_utf8(bytes: Vec<u8>) -> (text: Option<String>)
    ensures
        text is Some <==> valid_utf8(bytes@),
        text matches Some(t) ==> t@ == decode_utf8(bytes@),
{
    String::from_utf8(bytes).ok()
}

} // verus!
