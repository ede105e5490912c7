//! Header fields: what a header map holds, and the `http` operations on it.
//!
//! A header map is modelled by its fields: for each name the values that the
//! name has, in order. The order of different names among each other carries
//! no meaning, neither in the map nor in the model.

use axum::http::{HeaderMap, HeaderName, HeaderValue};
use vstd::prelude::*;
use vstd::utf8::encode_utf8;

use crate::text::ascii_lower;

verus! {

// Model

/// The fields of a header map: each name with its values in order.
pub type Fields = Map<Seq<char>, Seq<Seq<u8>>>;

/// No fields at all.
pub open spec fn no_fields() -> Fields {
    Map::empty()
}

/// The values that a name has, none where the name is absent.
pub open spec fn values_at(fields: Fields, name: Seq<char>) -> Seq<Seq<u8>> {
    if fields.contains_key(name) {
        fields[name]
    } else {
        Seq::empty()
    }
}

/// The fields with one more value at the end of a name's values.
pub open spec fn append_field(fields: Fields, name: Seq<char>, value: Seq<u8>) -> Fields {
    fields.insert(name, values_at(fields, name).push(value))
}

/// The fields with the values of further fields behind their own, name by name.
pub open spec fn append_fields(fields: Fields, more: Fields) -> Fields {
    Map::new(
        |name: Seq<char>| fields.contains_key(name) || more.contains_key(name),
        |name: Seq<char>| values_at(fields, name) + values_at(more, name),
    )
}

/// How many names have a value.
pub open spec fn name_count(fields: Fields) -> nat {
    fields.dom().len()
}

/// The fields that a list of single fields amounts to when they are appended
/// one after the other.
pub open spec fn fields_of(list: Seq<(Seq<char>, Seq<u8>)>) -> Fields
    decreases list.len(),
{
    if list.len() == 0 {
        no_fields()
    } else {
        append_field(fields_of(list.drop_last()), list.last().0, list.last().1)
    }
}

/// Up to this many names every header map takes one more field. Beyond it a map
/// can be full: how many names it has room for then depends on their hashes.
pub const MAX_HEADER_NAMES: usize = 6553;

/// Appending to the appended fields is appending to the whole.
pub proof fn lemma_append_fields_step(
    fields: Fields,
    more: Fields,
    name: Seq<char>,
    value: Seq<u8>,
)
    ensures
        append_fields(fields, append_field(more, name, value)) == append_field(
            append_fields(fields, more),
            name,
            value,
        ),
{
    let left = append_fields(fields, append_field(more, name, value));
    let right = append_field(append_fields(fields, more), name, value);
    assert forall|n: Seq<char>| left.contains_key(n) implies left[n] == right[n] by {
        assert(left[n] =~= right[n]);
    }
    assert(left =~= right);
}

/// Appending no fields changes nothing.
pub proof fn lemma_append_no_fields(fields: Fields)
    ensures
        append_fields(fields, no_fields()) == fields,
        append_fields(no_fields(), fields) == fields,
{
    assert forall|n: Seq<char>| fields.contains_key(n) implies append_fields(
        fields,
        no_fields(),
    )[n] == fields[n] && append_fields(no_fields(), fields)[n] == fields[n] by {
        assert(fields[n] + Seq::<Seq<u8>>::empty() =~= fields[n]);
        assert(Seq::<Seq<u8>>::empty() + fields[n] =~= fields[n]);
    }
    assert(append_fields(fields, no_fields()) =~= fields);
    assert(append_fields(no_fields(), fields) =~= fields);
}

/// Appending is associative.
pub proof fn lemma_append_fields_associative(a: Fields, b: Fields, c: Fields)
    ensures
        append_fields(append_fields(a, b), c) == append_fields(a, append_fields(b, c)),
{
    let left = append_fields(append_fields(a, b), c);
    let right = append_fields(a, append_fields(b, c));
    assert forall|n: Seq<char>| left.contains_key(n) implies left[n] == right[n] by {
        assert(left[n] =~= right[n]);
    }
    assert(left =~= right);
}

/// A list of fields has finitely many names: those that occur in it.
pub proof fn lemma_fields_of_names(list: Seq<(Seq<char>, Seq<u8>)>)
    ensures
        fields_of(list).dom().finite(),
        forall|n: Seq<char>| #[trigger]
            fields_of(list).contains_key(n) <==> exists|i: int|
                0 <= i < list.len() && (#[trigger] list[i]).0 == n,
    decreases list.len(),
{
    if list.len() > 0 {
        let front = list.drop_last();
        lemma_fields_of_names(front);
        assert forall|n: Seq<char>| #[trigger]
            fields_of(list).contains_key(n) <==> exists|i: int|
                0 <= i < list.len() && (#[trigger] list[i]).0 == n by {
            if fields_of(list).contains_key(n) {
                if n == list.last().0 {
                    assert(list[list.len() - 1].0 == n);
                } else {
                    assert(fields_of(front).contains_key(n));
                    let i = choose|i: int| 0 <= i < front.len() && (#[trigger] front[i]).0 == n;
                    assert(list[i].0 == n);
                }
            }
            if exists|i: int| 0 <= i < list.len() && (#[trigger] list[i]).0 == n {
                let i = choose|i: int| 0 <= i < list.len() && (#[trigger] list[i]).0 == n;
                if i < front.len() {
                    assert(front[i].0 == n);
                }
            }
        }
    }
}

/// The first fields of a list, one more of them appended.
pub proof fn lemma_fields_of_take(list: Seq<(Seq<char>, Seq<u8>)>, i: int)
    requires
        0 <= i < list.len(),
    ensures
        fields_of(list.take(i + 1)) == append_field(
            fields_of(list.take(i)),
            list[i].0,
            list[i].1,
        ),
{
    assert(list.take(i + 1).drop_last() =~= list.take(i));
}

/// The first fields of a list have no more names than the whole list.
pub proof fn lemma_fields_of_prefix(list: Seq<(Seq<char>, Seq<u8>)>, i: int)
    requires
        0 <= i <= list.len(),
    ensures
        name_count(fields_of(list.take(i))) <= name_count(fields_of(list)),
{
    let front = list.take(i);
    lemma_fields_of_names(front);
    lemma_fields_of_names(list);
    assert forall|n: Seq<char>| fields_of(front).contains_key(n) implies fields_of(
        list,
    ).contains_key(n) by {
        let k = choose|k: int| 0 <= k < front.len() && (#[trigger] front[k]).0 == n;
        assert(list[k].0 == n);
    }
    vstd::set_lib::lemma_len_subset(fields_of(front).dom(), fields_of(list).dom());
}

/// Fields with more appended to them have at least as many names.
pub proof fn lemma_name_count_grows(fields: Fields, more: Fields)
    requires
        fields.dom().finite(),
        more.dom().finite(),
    ensures
        append_fields(fields, more).dom().finite(),
        name_count(fields) <= name_count(append_fields(fields, more)),
        name_count(more) <= name_count(append_fields(fields, more)),
        name_count(append_fields(fields, more)) <= name_count(fields) + name_count(more),
{
    let all = append_fields(fields, more).dom();
    assert(all =~= fields.dom().union(more.dom()));
    vstd::set_lib::lemma_len_subset(fields.dom(), all);
    vstd::set_lib::lemma_len_subset(more.dom(), all);
    vstd::set_lib::lemma_len_union(fields.dom(), more.dom());
}

// Names and values

/// The characters of a header name as a header map holds it.
pub open spec fn is_header_name_char(c: char) -> bool {
    ||| 'a' <= c <= 'z'
    ||| '0' <= c <= '9'
    ||| c == '!' || c == '"' || c == '#' || c == '$' || c == '%' || c == '&' || c == '\''
    ||| c == '*' || c == '+' || c == '-' || c == '.' || c == '^' || c == '_' || c == '`'
    ||| c == '|' || c == '~'
}

/// A header name as a header map holds it: lower case, not empty, and at most
/// 65535 characters long.
pub open spec fn is_header_name(name: Seq<char>) -> bool {
    &&& 0 < name.len() <= 65535
    &&& forall|i: int| 0 <= i < name.len() ==> is_header_name_char(#[trigger] name[i])
}

/// The characters from which a header name is read: those of a token, in either
/// case.
pub open spec fn is_token_char(c: char) -> bool {
    ||| 'A' <= c <= 'Z'
    ||| is_header_name_char(c) && c != '"'
}

/// The header name that a text denotes: the text in lower case, where it is a
/// token of at most 65535 characters.
pub open spec fn parsed_header_name(text: Seq<char>) -> Option<Seq<char>> {
    if 0 < text.len() <= 65535 && (forall|i: int|
        0 <= i < text.len() ==> is_token_char(#[trigger] text[i])) {
        Some(ascii_lower(text))
    } else {
        None
    }
}

/// The bytes that a header value may hold: all but the control characters, with
/// the tab allowed.
pub open spec fn is_header_value_byte(b: u8) -> bool {
    b >= 32 && b != 127 || b == 9
}

/// Bytes that form a header value.
pub open spec fn is_header_value(value: Seq<u8>) -> bool {
    forall|i: int| 0 <= i < value.len() ==> is_header_value_byte(#[trigger] value[i])
}

/// The header value that a text denotes: its UTF-8 bytes, where none of them is
/// a control character other than the tab.
pub open spec fn parsed_header_value(text: Seq<char>) -> Option<Seq<u8>> {
    if is_header_value(encode_utf8(text)) {
        Some(encode_utf8(text))
    } else {
        None
    }
}

/// Visible ASCII, the space and the tab.
pub open spec fn is_visible_ascii(b: u8) -> bool {
    32 <= b < 127 || b == 9
}

/// The text of a header value: its bytes as characters, where all of them are
/// visible ASCII, spaces or tabs.
pub open spec fn header_value_text(value: Seq<u8>) -> Option<Seq<char>> {
    if forall|i: int| 0 <= i < value.len() ==> is_visible_ascii(#[trigger] value[i]) {
        Some(value.map_values(|b: u8| b as char))
    } else {
        None
    }
}

// The header map of `http`

/// The multimap of header fields of the `http` crate.
#[verifier::external_type_specification]
#[verifier::external_body]
#[verifier::reject_recursive_types(T)]
pub struct ExHeaderMap<T>(HeaderMap<T>);

/// The header name of the `http` crate.
#[verifier::external_type_specification]
#[verifier::external_body]
pub struct ExHeaderName(HeaderName);

/// The header value of the `http` crate, which header maps hold.
#[verifier::external_type_specification]
#[verifier::external_body]
pub struct ExHeaderValue(HeaderValue);

/// The characters that a header name holds.
pub uninterp spec fn name_text(name: HeaderName) -> Seq<char>;

/// The bytes that a header value holds.
pub uninterp spec fn value_bytes(value: HeaderValue) -> Seq<u8>;

/// The fields that a header map holds.
pub uninterp spec fn header_fields(map: HeaderMap) -> Fields;

/// A header field: a name with one value.
pub struct HeaderField {
    pub name: HeaderName,
    pub value: HeaderValue,
}

impl View for HeaderField {
    type V = (Seq<char>, Seq<u8>);

    open spec fn view(&self) -> (Seq<char>, Seq<u8>) {
        (name_text(self.name), value_bytes(self.value))
    }
}

/// The views of a list of fields.
pub open spec fn field_views(list: Seq<HeaderField>) -> Seq<(Seq<char>, Seq<u8>)> {
    list.map_values(|field: HeaderField| field@)
}

/// `HeaderMap::new`: a map without fields.
#[verifier::external_body]
pub(crate) fn new_header_map() -> (map: HeaderMap)
    ensures
        header_fields(map) == no_fields(),
{
    HeaderMap::new()
}

/// `HeaderMap::clone`: a map with the same fields.
#[verifier::external_body]
pub(crate) fn clone_header_map(map: &HeaderMap) -> (copy: HeaderMap)
    ensures
        header_fields(copy) == header_fields(*map),
{
    map.clone()
}

/// `HeaderMap::iter`: every field of the map, a name once for each of its
/// values, the values of a name in their order. The order of the names is left
/// open.
#[verifier::external_body]
pub(crate) fn header_list(map: &HeaderMap) -> (list: Vec<HeaderField>)
    ensures
        fields_of(field_views(list@)) == header_fields(*map),
{
    map.iter()
        .map(|(name, value)| HeaderField { name: name.clone(), value: value.clone() })
        .collect()
}

/// `HeaderMap::try_append`: puts a value behind the values that the name has.
/// Where the map has no room the call fails, says so, and the fields stay; with
/// at most `MAX_HEADER_NAMES` names it has room. Beyond that number it is left
/// open whether there is room. The names in a map are finitely many.
#[verifier::external_body]
pub(crate) fn try_append_header(
    map: &mut HeaderMap,
    name: &HeaderName,
    value: &HeaderValue,
) -> (appended: Result<(), String>)
    ensures
        match appended {
            Ok(_) => header_fields(*final(map)) == append_field(
                header_fields(*old(map)),
                name_text(*name),
                value_bytes(*value),
            ),
            Err(reason) => {
                &&& header_fields(*final(map)) == header_fields(*old(map))
                &&& reason@ == "max size reached"@
            },
        },
        name_count(header_fields(*old(map))) <= MAX_HEADER_NAMES ==> appended is Ok,
        header_fields(*final(map)).dom().finite(),
{
    match map.try_append(name, value.clone()) {
        Ok(_) => Ok(()),
        Err(error) => Err(error.to_string()),
    }
}

/// `HeaderMap::remove`: takes a name out of the map with all its values.
#[verifier::external_body]
pub(crate) fn remove_header(map: &mut HeaderMap, name: &HeaderName)
    ensures
        header_fields(*final(map)) == header_fields(*old(map)).remove(name_text(*name)),
{
    map.remove(name);
}

/// `HeaderMap::contains_key`: whether the name has a value.
#[verifier::external_body]
pub(crate) fn contains_header(map: &HeaderMap, name: &HeaderName) -> (present: bool)
    ensures
        present == header_fields(*map).contains_key(name_text(*name)),
{
    map.contains_key(name)
}

/// The first of a name's values.
pub open spec fn first_value(fields: Fields, name: Seq<char>) -> Option<Seq<u8>> {
    if fields.contains_key(name) {
        Some(fields[name][0])
    } else {
        None
    }
}

/// `HeaderMap::get`: the first of a name's values.
#[verifier::external_body]
pub(crate) fn get_header(map: &HeaderMap, name: &HeaderName) -> (value: Option<HeaderValue>)
    ensures
        match value {
            Some(found) => first_value(header_fields(*map), name_text(*name)) == Some(
                value_bytes(found),
            ),
            None => first_value(header_fields(*map), name_text(*name)) is None,
        },
{
    map.get(name).cloned()
}

/// `HeaderName::try_from`: reads a header name from a text. It succeeds on the
/// tokens of at most 65535 characters and gives them in lower case.
#[verifier::external_body]
pub(crate) fn parse_header_name(text: &str) -> (name: Option<HeaderName>)
    ensures
        match name {
            Some(parsed) => parsed_header_name(text@) == Some(name_text(parsed)),
            None => parsed_header_name(text@) is None,
        },
{
    HeaderName::try_from(text).ok()
}

/// `HeaderValue::try_from`: reads a header value from a text. It succeeds where
/// no byte of the text is a control character other than the tab, and keeps the
/// bytes.
#[verifier::external_body]
pub(crate) fn parse_header_value(text: &str) -> (value: Option<HeaderValue>)
    ensures
        match value {
            Some(parsed) => parsed_header_value(text@) == Some(value_bytes(parsed)),
            None => parsed_header_value(text@) is None,
        },
{
    HeaderValue::try_from(text).ok()
}

/// `HeaderName::as_str`: the text of a header name.
#[verifier::external_body]
pub(crate) fn header_name_text(name: &HeaderName) -> (text: String)
    ensures
        text@ == name_text(*name),
{
    name.as_str().to_string()
}

/// `HeaderValue::to_str`: the text of a header value. It succeeds where every
/// byte is visible ASCII, a space or a tab.
#[verifier::external_body]
pub(crate) fn header_text(value: &HeaderValue) -> (text: Option<String>)
    ensures
        match text {
            Some(chars) => header_value_text(value_bytes(*value)) == Some(chars@),
            None => header_value_text(value_bytes(*value)) is None,
        },
{
    value.to_str().ok().map(|text| text.to_string())
}

} // verus!
