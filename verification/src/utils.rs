//! Cache keys, header rules and the conversions between header maps and tables
//! of texts.

use std::collections::HashMap;

use axum::http::HeaderMap;
use sha2::{Digest, Sha256};
use vstd::prelude::*;
use vstd::utf8::encode_utf8;

use crate::headers::{
    append_field, append_fields, clone_header_map, field_views, fields_of, header_fields,
    header_list, header_name_text, header_text, header_value_text, lemma_append_fields_associative,
    lemma_append_fields_step, lemma_append_no_fields, lemma_fields_of_names, lemma_fields_of_prefix,
    lemma_fields_of_take, lemma_name_count_grows, name_count, name_text, new_header_map, no_fields,
    parse_header_name, parse_header_value, parsed_header_name, parsed_header_value, remove_header,
    try_append_header, value_bytes, values_at, Fields, HeaderField, MAX_HEADER_NAMES,
};
use crate::models::{distinct_names, entry_views, texts_of, HeaderEntry, HeaderTable, TextTable};
use crate::response::{extended, HeadView, ResponseBuilder};
use crate::text::{ascii_lower, lower_hex, same_text, to_lower_hex};

verus! {

// Cache keys

/// The SHA-256 digest of a byte sequence.
pub uninterp spec fn sha256_digest(data: Seq<u8>) -> Seq<u8>;

/// `Sha256::digest`: the SHA-256 digest of the data, 32 bytes.
#[verifier::external_body]
fn sha256(data: &[u8]) -> (digest: Vec<u8>)
    ensures
        digest@ == sha256_digest(data@),
        digest@.len() == 32,
{
    Sha256::digest(data).to_vec()
}

/// What the digest of a cache key is taken of: method, colon, URL.
pub open spec fn cache_key_input(method: Seq<char>, url: Seq<char>) -> Seq<u8> {
    encode_utf8(method) + seq![58u8] + encode_utf8(url)
}

/// The cache key that belongs to a digest.
pub open spec fn cache_key_text(digest: Seq<u8>) -> Seq<char> {
    "cache:"@ + lower_hex(digest)
}

/// The cache key of a request.
pub open spec fn cache_key(method: Seq<char>, url: Seq<char>) -> Seq<char> {
    cache_key_text(sha256_digest(cache_key_input(method, url)))
}

/// The bytes that the digest of a cache key is taken of.
pub fn cache_key_bytes(method: &str, url: &str) -> (input: Vec<u8>)
    ensures
        input@ == cache_key_input(method@, url@),
{
    let mut input: Vec<u8> = method.as_bytes_vec();
    let mut colon: Vec<u8> = vec![58u8];
    let mut rest: Vec<u8> = url.as_bytes_vec();
    input.append(&mut colon);
    input.append(&mut rest);
    assert(input@ =~= cache_key_input(method@, url@));
    input
}

/// Writes a digest as a cache key.
pub fn cache_key_of_digest(digest: &[u8]) -> (key: String)
    ensures
        key@ == cache_key_text(digest@),
{
    "cache:".to_string().concat(to_lower_hex(digest).as_str())
}

/// The cache key of a method and a URL: the SHA-256 digest of both, in 64
/// hexadecimal digits behind `cache:`.
pub fn generate_cache_key(method: &str, url: &str) -> (key: String)
    ensures
        key@ == cache_key(method@, url@),
        key@.len() == 70,
{
    proof {
        reveal_strlit("cache:");
    }
    let input = cache_key_bytes(method, url);
    let digest = sha256(input.as_slice());
    cache_key_of_digest(digest.as_slice())
}

// Hop-by-hop headers

/// The headers that concern one connection only, whatever their letter case.
pub open spec fn hop_by_hop(name: Seq<char>) -> bool {
    let lower = ascii_lower(name);
    ||| lower == "host"@
    ||| lower == "connection"@
    ||| lower == "keep-alive"@
    ||| lower == "transfer-encoding"@
    ||| lower == "upgrade"@
    ||| lower == "proxy-authorization"@
    ||| lower == "proxy-authenticate"@
    ||| lower == "te"@
    ||| lower == "trailer"@
}

/// Whether a header is a hop-by-hop header that should not be forwarded.
pub fn is_hop_by_hop_header(name: &str) -> (hop: bool)
    ensures
        hop == hop_by_hop(name@),
{
    let lowered = name.to_ascii_lowercase();
    let lower = lowered.as_str();
    same_text(lower, "host") || same_text(lower, "connection") || same_text(lower, "keep-alive")
        || same_text(lower, "transfer-encoding") || same_text(lower, "upgrade") || same_text(
        lower,
        "proxy-authorization",
    ) || same_text(lower, "proxy-authenticate") || same_text(lower, "te") || same_text(
        lower,
        "trailer",
    )
}

/// The fields without the hop-by-hop headers.
pub open spec fn end_to_end(fields: Fields) -> Fields {
    Map::new(
        |name: Seq<char>| fields.contains_key(name) && !hop_by_hop(name),
        |name: Seq<char>| fields[name],
    )
}

/// The fields of a header map without the hop-by-hop headers, all values kept.
pub fn filter_headers(headers: &HeaderMap) -> (filtered: HeaderMap)
    ensures
        header_fields(filtered) == end_to_end(header_fields(*headers)),
        header_fields(*headers).dom().finite(),
{
    let list = header_list(headers);
    let mut filtered = clone_header_map(headers);
    let ghost all = header_fields(*headers);
    let ghost views = field_views(list@);
    proof {
        lemma_fields_of_names(views);
    }
    let ghost mut gone: Set<Seq<char>> = Set::empty();
    assert(header_fields(filtered) =~= all.remove_keys(gone));
    for i in 0..list.len()
        invariant
            views == field_views(list@),
            header_fields(filtered) == all.remove_keys(gone),
            forall|n: Seq<char>| #[trigger] gone.contains(n) ==> hop_by_hop(n),
            forall|k: int|
                0 <= k < i && hop_by_hop((#[trigger] views[k]).0) ==> gone.contains(views[k].0),
    {
        assert(views[i as int] == list@[i as int]@);
        if is_hop_by_hop_header(header_name_text(&list[i].name).as_str()) {
            remove_header(&mut filtered, &list[i].name);
            proof {
                let name = views[i as int].0;
                assert(all.remove_keys(gone).remove(name) =~= all.remove_keys(gone.insert(name)));
                gone = gone.insert(name);
            }
        }
    }
    assert(header_fields(filtered) =~= end_to_end(all));
    filtered
}

// Header maps and tables of texts

/// The texts of those values that have one.
pub open spec fn text_values(values: Seq<Seq<u8>>) -> Seq<Seq<char>>
    decreases values.len(),
{
    if values.len() == 0 {
        Seq::empty()
    } else {
        match header_value_text(values.last()) {
            Some(text) => text_values(values.drop_last()).push(text),
            None => text_values(values.drop_last()),
        }
    }
}

/// The table of the fields' texts: the names with a value that has a text, with
/// the texts of their values in order.
pub open spec fn text_fields(fields: Fields) -> TextTable {
    Map::new(
        |name: Seq<char>| text_values(values_at(fields, name)).len() > 0,
        |name: Seq<char>| text_values(values_at(fields, name)),
    )
}

/// The table with one more value at the end of a name's values.
pub open spec fn append_text(table: TextTable, name: Seq<char>, text: Seq<char>) -> TextTable {
    table.insert(
        name,
        (if table.contains_key(name) {
            table[name]
        } else {
            Seq::empty()
        }).push(text),
    )
}

/// One more field adds its text to the table, where it has one.
proof fn lemma_text_fields_step(fields: Fields, name: Seq<char>, value: Seq<u8>)
    ensures
        match header_value_text(value) {
            Some(text) => text_fields(append_field(fields, name, value)) == append_text(
                text_fields(fields),
                name,
                text,
            ),
            None => text_fields(append_field(fields, name, value)) == text_fields(fields),
        },
{
    let after = append_field(fields, name, value);
    assert(values_at(after, name).drop_last() =~= values_at(fields, name));
    assert forall|n: Seq<char>| n != name implies values_at(after, n) == values_at(fields, n) by {}
    assert(text_values(values_at(fields, name)).len() == 0 ==> text_values(values_at(fields, name))
        =~= Seq::<Seq<char>>::empty());
    match header_value_text(value) {
        Some(text) => {
            assert(text_fields(after) =~= append_text(text_fields(fields), name, text));
        },
        None => {
            assert(text_fields(after) =~= text_fields(fields));
        },
    }
}

/// The texts of a header map's fields. Values without a text are left out.
pub fn headers_to_hashmap(headers: &HeaderMap) -> (table: HeaderTable)
    ensures
        table@ == text_fields(header_fields(*headers)),
{
    let list = header_list(headers);
    let mut table = HeaderTable::new();
    let ghost views = field_views(list@);
    assert(views.take(0) =~= Seq::empty());
    assert(table@ =~= text_fields(no_fields()));
    for i in 0..list.len()
        invariant
            views == field_views(list@),
            table@ == text_fields(fields_of(views.take(i as int))),
    {
        proof {
            let seen = fields_of(views.take(i as int));
            assert(views[i as int] == list@[i as int]@);
            lemma_fields_of_take(views, i as int);
            lemma_text_fields_step(seen, views[i as int].0, views[i as int].1);
        }
        match header_text(&list[i].value) {
            Some(text) => {
                table.append(header_name_text(&list[i].name), text);
            },
            None => {},
        }
    }
    assert(views.take(views.len() as int) =~= views);
    table
}

/// The header values that the texts denote, those that denote none left out.
pub open spec fn header_values(texts: Seq<Seq<char>>) -> Seq<Seq<u8>>
    decreases texts.len(),
{
    if texts.len() == 0 {
        Seq::empty()
    } else {
        match parsed_header_value(texts.last()) {
            Some(value) => header_values(texts.drop_last()).push(value),
            None => header_values(texts.drop_last()),
        }
    }
}

/// The fields that one table entry denotes: its values under its name. An entry
/// whose name is no header name, or of whose values none is a header value,
/// denotes no field.
pub open spec fn entry_fields(name: Seq<char>, texts: Seq<Seq<char>>) -> Fields {
    match parsed_header_name(name) {
        Some(parsed) => if header_values(texts).len() > 0 {
            no_fields().insert(parsed, header_values(texts))
        } else {
            no_fields()
        },
        None => no_fields(),
    }
}

/// The fields that a list of table entries denotes.
pub open spec fn table_fields(entries: Seq<(Seq<char>, Seq<Seq<char>>)>) -> Fields
    decreases entries.len(),
{
    if entries.len() == 0 {
        no_fields()
    } else {
        append_fields(
            table_fields(entries.drop_last()),
            entry_fields(entries.last().0, entries.last().1),
        )
    }
}

/// One more text adds its value to the entry's fields, where it has one.
proof fn lemma_entry_fields_step(name: Seq<char>, texts: Seq<Seq<char>>, j: int)
    requires
        0 <= j < texts.len(),
    ensures
        match (parsed_header_name(name), parsed_header_value(texts[j])) {
            (Some(parsed), Some(value)) => entry_fields(name, texts.take(j + 1)) == append_field(
                entry_fields(name, texts.take(j)),
                parsed,
                value,
            ),
            _ => entry_fields(name, texts.take(j + 1)) == entry_fields(name, texts.take(j)),
        },
{
    assert(texts.take(j + 1).drop_last() =~= texts.take(j));
    let before = header_values(texts.take(j));
    assert(before.len() == 0 ==> before =~= Seq::<Seq<u8>>::empty());
    if let (Some(parsed), Some(value)) = (parsed_header_name(name), parsed_header_value(texts[j])) {
        assert(entry_fields(name, texts.take(j + 1)) =~= append_field(
            entry_fields(name, texts.take(j)),
            parsed,
            value,
        ));
    }
}

/// The fields that a table denotes, one by one. Names and values that are not
/// valid in a header are left out.
fn table_list(table: &HeaderTable) -> (list: Vec<HeaderField>)
    ensures
        fields_of(field_views(list@)) == table_fields(table.order()),
        distinct_names(table.order()),
{
    let entries = table.entries();
    let ghost order = table.order();
    let mut list: Vec<HeaderField> = Vec::new();
    assert(order.take(0) =~= Seq::empty());
    assert(field_views(list@) =~= Seq::empty());
    for i in 0..entries.len()
        invariant
            order == entry_views(entries@),
            fields_of(field_views(list@)) == table_fields(order.take(i as int)),
    {
        let entry: &HeaderEntry = &entries[i];
        let ghost seen = table_fields(order.take(i as int));
        let ghost texts = texts_of(entry.values@);
        proof {
            assert(order[i as int] == entry@);
            assert(order.take(i + 1).drop_last() =~= order.take(i as int));
            lemma_append_no_fields(seen);
        }
        assert(texts.take(0) =~= Seq::empty());
        assert(entry_fields(entry.name@, texts.take(0)) =~= no_fields());
        for j in 0..entry.values.len()
            invariant
                texts == texts_of(entry.values@),
                fields_of(field_views(list@)) == append_fields(
                    seen,
                    entry_fields(entry.name@, texts.take(j as int)),
                ),
        {
            proof {
                assert(texts[j as int] == entry.values@[j as int]@);
                lemma_entry_fields_step(entry.name@, texts, j as int);
            }
            match (
                parse_header_name(entry.name.as_str()),
                parse_header_value(entry.values[j].as_str()),
            ) {
                (Some(name), Some(value)) => {
                    let ghost before = field_views(list@);
                    let ghost field = (name_text(name), value_bytes(value));
                    list.push(HeaderField { name, value });
                    proof {
                        assert(field_views(list@) =~= before.push(field));
                        assert(before.push(field).drop_last() =~= before);
                        lemma_append_fields_step(
                            seen,
                            entry_fields(entry.name@, texts.take(j as int)),
                            field.0,
                            field.1,
                        );
                    }
                },
                _ => {},
            }
        }
        assert(texts.take(texts.len() as int) =~= texts);
    }
    assert(order.take(order.len() as int) =~= order);
    list
}

/// The header map of a table's fields. Names and values that are not valid in a
/// header are left out. Where a map has no room for that many names, the reason
/// is returned.
pub fn hashmap_to_headers(table: &HeaderTable) -> (headers: Result<HeaderMap, String>)
    ensures
        match headers {
            Ok(map) => header_fields(map) == table_fields(table.order()),
            Err(reason) => {
                &&& name_count(table_fields(table.order())) > MAX_HEADER_NAMES
                &&& reason@ == "max size reached"@
            },
        },
        table_fields(table.order()).dom().finite(),
        distinct_names(table.order()),
{
    let list = table_list(table);
    let ghost views = field_views(list@);
    proof {
        lemma_fields_of_names(views);
    }
    let mut map = new_header_map();
    assert(views.take(0) =~= Seq::empty());
    for i in 0..list.len()
        invariant
            views == field_views(list@),
            fields_of(views) == table_fields(table.order()),
            distinct_names(table.order()),
            header_fields(map) == fields_of(views.take(i as int)),
    {
        proof {
            assert(views[i as int] == list@[i as int]@);
            lemma_fields_of_take(views, i as int);
        }
        match try_append_header(&mut map, &list[i].name, &list[i].value) {
            Ok(_) => {},
            Err(reason) => {
                proof {
                    lemma_fields_of_prefix(views, i as int);
                    lemma_fields_of_names(views);
                }
                return Err(reason);
            },
        }
    }
    assert(views.take(views.len() as int) =~= views);
    Ok(map)
}

// Response headers

/// A builder that took some fields and then some more took them all.
pub proof fn lemma_extended_twice(
    before: Result<HeadView, Seq<char>>,
    first: Fields,
    between: Result<HeadView, Seq<char>>,
    second: Fields,
    after: Result<HeadView, Seq<char>>,
)
    requires
        extended(before, first, between),
        extended(between, second, after),
        first.dom().finite(),
        second.dom().finite(),
        between is Ok ==> between->Ok_0.fields.dom().finite(),
        before is Ok && between is Err ==> before->Ok_0.fields.dom().finite(),
    ensures
        extended(before, append_fields(first, second), after),
        before is Ok ==> before->Ok_0.fields.dom().finite(),
{
    if let Ok(head) = before {
        let once = append_fields(head.fields, first);
        lemma_append_fields_associative(head.fields, first, second);
        if between is Ok {
            assert(head.fields.dom().subset_of(once.dom()));
            vstd::set_lib::lemma_set_subset_finite(once.dom(), head.fields.dom());
        }
        lemma_name_count_grows(head.fields, first);
        lemma_name_count_grows(once, second);
    }
}

/// One more field of the list adds to the end-to-end fields unless it is a
/// hop-by-hop header.
proof fn lemma_end_to_end_step(fields: Fields, name: Seq<char>, value: Seq<u8>)
    ensures
        end_to_end(append_field(fields, name, value)) == if hop_by_hop(name) {
            end_to_end(fields)
        } else {
            append_fields(end_to_end(fields), no_fields().insert(name, seq![value]))
        },
{
    let after = end_to_end(append_field(fields, name, value));
    if hop_by_hop(name) {
        assert(after =~= end_to_end(fields));
    } else {
        let right = append_fields(end_to_end(fields), no_fields().insert(name, seq![value]));
        assert forall|n: Seq<char>| after.contains_key(n) implies after[n] == right[n] by {
            assert(after[n] =~= right[n]);
        }
        assert(after =~= right);
    }
}

/// Adds the fields of a header map to a response, without the hop-by-hop
/// headers.
pub fn add_headers_to_response(builder: ResponseBuilder, headers: &HeaderMap) -> (added:
    ResponseBuilder)
    ensures
        extended(builder@, end_to_end(header_fields(*headers)), added@),
        builder@ is Ok && added@ is Err ==> builder@->Ok_0.fields.dom().finite(),
        end_to_end(header_fields(*headers)).dom().finite(),
{
    let list = header_list(headers);
    let ghost views = field_views(list@);
    let ghost before = builder@;
    let mut builder = builder;
    proof {
        assert(views.take(0) =~= Seq::empty());
        assert(end_to_end(no_fields()) =~= no_fields());
        if let Ok(head) = before {
            lemma_append_no_fields(head.fields);
        }
    }
    for i in 0..list.len()
        invariant
            views == field_views(list@),
            extended(before, end_to_end(fields_of(views.take(i as int))), builder@),
            before is Ok && builder@ is Err ==> before->Ok_0.fields.dom().finite(),
    {
        let ghost seen = fields_of(views.take(i as int));
        proof {
            assert(views[i as int] == list@[i as int]@);
            lemma_fields_of_take(views, i as int);
            lemma_fields_of_names(views.take(i as int));
            lemma_end_to_end_step(seen, views[i as int].0, views[i as int].1);
            vstd::set_lib::lemma_set_subset_finite(seen.dom(), end_to_end(seen).dom());
        }
        if !is_hop_by_hop_header(header_name_text(&list[i].name).as_str()) {
            let ghost between = builder@;
            let ghost one = no_fields().insert(views[i as int].0, seq![views[i as int].1]);
            builder = builder.header(&list[i].name, &list[i].value);
            proof {
                lemma_extended_twice(before, end_to_end(seen), between, one, builder@);
            }
        }
    }
    proof {
        assert(views.take(views.len() as int) =~= views);
        lemma_fields_of_names(views);
        vstd::set_lib::lemma_set_subset_finite(
            fields_of(views).dom(),
            end_to_end(fields_of(views)).dom(),
        );
    }
    builder
}

/// Adds the fields that a table denotes to a response. Names and values that are
/// not valid in a header are left out.
pub fn add_cached_headers_to_response(builder: ResponseBuilder, headers: &HeaderTable) -> (added:
    ResponseBuilder)
    ensures
        extended(builder@, table_fields(headers.order()), added@),
{
    let list = table_list(headers);
    let ghost views = field_views(list@);
    let ghost before = builder@;
    let mut builder = builder;
    proof {
        assert(views.take(0) =~= Seq::empty());
        if let Ok(head) = before {
            lemma_append_no_fields(head.fields);
        }
    }
    for i in 0..list.len()
        invariant
            views == field_views(list@),
            extended(before, fields_of(views.take(i as int)), builder@),
            before is Ok && builder@ is Err ==> before->Ok_0.fields.dom().finite(),
    {
        let ghost seen = fields_of(views.take(i as int));
        let ghost one = no_fields().insert(views[i as int].0, seq![views[i as int].1]);
        let ghost between = builder@;
        builder = builder.header(&list[i].name, &list[i].value);
        proof {
            assert(views[i as int] == list@[i as int]@);
            lemma_fields_of_take(views, i as int);
            lemma_fields_of_names(views.take(i as int));
            assert(append_field(no_fields(), views[i as int].0, views[i as int].1) =~= one);
            lemma_append_fields_step(seen, no_fields(), views[i as int].0, views[i as int].1);
            lemma_append_no_fields(seen);
            lemma_extended_twice(before, seen, between, one, builder@);
        }
    }
    assert(views.take(views.len() as int) =~= views);
    builder
}

// Default headers

/// What a text denotes as a JSON object whose values are all strings: each key
/// with its value, or the reason why the text is none.
pub uninterp spec fn json_string_object(text: Seq<char>) -> Result<
    Map<Seq<char>, Seq<char>>,
    Seq<char>,
>;

/// The map that a list of pairs stands for, a later pair in place of an earlier
/// one of the same key.
pub open spec fn pairs_map(pairs: Seq<(String, String)>) -> Map<Seq<char>, Seq<char>>
    decreases pairs.len(),
{
    if pairs.len() == 0 {
        Map::empty()
    } else {
        pairs_map(pairs.drop_last()).insert(pairs.last().0@, pairs.last().1@)
    }
}

/// `serde_json::from_str`, reading a map from strings to strings: the pairs of
/// the object that the text denotes, or the text of the error. The order of the
/// pairs is left open.
#[verifier::external_body]
fn parse_json_strings(text: &str) -> (parsed: Result<Vec<(String, String)>, String>)
    ensures
        match parsed {
            Ok(pairs) => json_string_object(text@) == Ok::<_, Seq<char>>(pairs_map(pairs@)),
            Err(error) => json_string_object(text@) == Err::<Map<Seq<char>, Seq<char>>, _>(error@),
        },
{
    match serde_json::from_str::<HashMap<String, String>>(text) {
        Ok(map) => Ok(map.into_iter().collect()),
        Err(error) => Err(error.to_string()),
    }
}

/// The table in which each key has its one value.
pub open spec fn single_values(map: Map<Seq<char>, Seq<char>>) -> TextTable {
    Map::new(|key: Seq<char>| map.contains_key(key), |key: Seq<char>| seq![map[key]])
}

/// Makes the table of default headers from what was read of their JSON text.
pub fn default_headers_table(parsed: Result<Vec<(String, String)>, String>) -> (table: Result<
    HeaderTable,
    String,
>)
    ensures
        match parsed {
            Ok(pairs) => table is Ok && table->Ok_0@ == single_values(pairs_map(pairs@)),
            Err(error) => table is Err && table->Err_0@ == "Invalid DEFAULT_HEADERS: "@ + error@,
        },
{
    match parsed {
        Ok(pairs) => {
            let mut table = HeaderTable::new();
            assert(pairs@.take(0) =~= Seq::empty());
            assert(table@ =~= single_values(pairs_map(pairs@.take(0))));
            for i in 0..pairs.len()
                invariant
                    table@ == single_values(pairs_map(pairs@.take(i as int))),
            {
                let mut values: Vec<String> = Vec::new();
                values.push(pairs[i].1.clone());
                assert(texts_of(values@) =~= seq![pairs@[i as int].1@]);
                table.insert(pairs[i].0.clone(), values);
                assert(pairs@.take(i + 1).drop_last() =~= pairs@.take(i as int));
                assert(table@ =~= single_values(pairs_map(pairs@.take(i + 1))));
            }
            assert(pairs@.take(pairs@.len() as int) =~= pairs@);
            Ok(table)
        },
        Err(error) => Err("Invalid DEFAULT_HEADERS: ".to_string().concat(error.as_str())),
    }
}

/// Reads the default headers from their JSON text. Without a text there are
/// none.
pub fn parse_default_headers(json: Option<&String>) -> (table: Result<HeaderTable, String>)
    ensures
        match json {
            Some(text) => match json_string_object(text@) {
                Ok(map) => table is Ok && table->Ok_0@ == single_values(map),
                Err(error) => table is Err && table->Err_0@ == "Invalid DEFAULT_HEADERS: "@ + error,
            },
            None => table is Ok && table->Ok_0.order() == Seq::<
                (Seq<char>, Seq<Seq<char>>),
            >::empty(),
        },
{
    match json {
        Some(text) => default_headers_table(parse_json_strings(text.as_str())),
        None => Ok(HeaderTable::new()),
    }
}

// Errors

/// An error response with the given status and message.
pub fn error_response(status: u16, message: String) -> (response: (u16, String))
    ensures
        response.0 == status,
        response.1@ == message@,
{
    (status, message)
}

} // verus!
