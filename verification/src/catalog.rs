//! Parsing of the remote listing responses. Every listing call — the
//! package catalog and each artifact listing — answers with one JSON shape:
//! an object `d` holding an array `results` of entries with an `Id`, a
//! `Name` and an optional `Mode`. The parser is verified against that
//! shape over the JSON tree model.

use vstd::prelude::*;

use crate::client::status_success;
use crate::errors::Error;
use crate::json::{
    json_as_array, json_as_str, json_from_str, json_get, json_is_null, json_parse, json_tree,
    JsonVal,
};
use crate::rules::{CatalogEntry, EntryView};

verus! {

/// The member under `key`, when it is a string.
pub open spec fn obj_str_field(m: Map<Seq<char>, JsonVal>, key: Seq<char>) -> Option<Seq<char>> {
    if m.dom().contains(key) {
        match m[key] {
            JsonVal::Str(s) => Option::Some(s),
            _ => Option::None,
        }
    } else {
        Option::None
    }
}

/// The member under `key` as an optional string: a missing member and an
/// explicit null both count as absent; any other non-string is malformed.
pub open spec fn obj_opt_str_field(m: Map<Seq<char>, JsonVal>, key: Seq<char>) -> Option<
    Option<Seq<char>>,
> {
    if !m.dom().contains(key) {
        Option::Some(Option::None)
    } else {
        match m[key] {
            JsonVal::Str(s) => Option::Some(Option::Some(s)),
            JsonVal::Null => Option::Some(Option::None),
            _ => Option::None,
        }
    }
}

/// The catalog entry one listing element describes, or nothing when the
/// element is malformed.
pub open spec fn spec_entry_of(j: JsonVal) -> Option<EntryView> {
    match j {
        JsonVal::Obj(m) => {
            match (obj_str_field(m, "Id"@), obj_str_field(m, "Name"@), obj_opt_str_field(
                m,
                "Mode"@,
            )) {
                (Option::Some(id), Option::Some(name), Option::Some(mode)) => Option::Some(
                    EntryView { id, name, mode },
                ),
                _ => Option::None,
            }
        },
        _ => Option::None,
    }
}

/// The entries a listing array describes, in order, or nothing when any
/// element is malformed.
pub open spec fn spec_entries_of(els: Seq<JsonVal>) -> Option<Seq<EntryView>>
    decreases els.len(),
{
    if els.len() == 0 {
        Option::Some(Seq::empty())
    } else {
        match spec_entries_of(els.drop_last()) {
            Option::None => Option::None,
            Option::Some(rest) => match spec_entry_of(els.last()) {
                Option::None => Option::None,
                Option::Some(e) => Option::Some(rest.push(e)),
            },
        }
    }
}

/// The catalog a listing document describes: object `d`, object member
/// `results`, an array of entries.
pub open spec fn spec_listing(j: JsonVal) -> Option<Seq<EntryView>> {
    match j {
        JsonVal::Obj(m) => {
            if m.dom().contains("d"@) {
                match m["d"@] {
                    JsonVal::Obj(dm) => {
                        if dm.dom().contains("results"@) {
                            match dm["results"@] {
                                JsonVal::Arr(els) => spec_entries_of(els),
                                _ => Option::None,
                            }
                        } else {
                            Option::None
                        }
                    },
                    _ => Option::None,
                }
            } else {
                Option::None
            }
        },
        _ => Option::None,
    }
}

/// The catalog a listing body describes, through the JSON parse.
pub open spec fn spec_parse_listing(body: Seq<char>) -> Option<Seq<EntryView>> {
    match json_parse(body) {
        Option::None => Option::None,
        Option::Some(j) => spec_listing(j),
    }
}

proof fn lemma_entries_bad(els: Seq<JsonVal>, i: int)
    requires
        0 <= i < els.len(),
        spec_entry_of(els[i]) is None,
    ensures
        spec_entries_of(els) is None,
    decreases els.len(),
{
    if i < els.len() - 1 {
        lemma_entries_bad(els.drop_last(), i);
        assert(els.drop_last()[i] == els[i]);
    }
}

/// Parses one listing element into a catalog entry.
fn parse_entry(item: &serde_json::Value) -> (r: Option<CatalogEntry>)
    ensures
        match r {
            Option::Some(e) => spec_entry_of(json_tree(*item)) == Option::Some(e@),
            Option::None => spec_entry_of(json_tree(*item)) is None,
        },
{
    let id = match json_get(item, "Id") {
        None => {
            return None;
        },
        Some(w) => match json_as_str(w) {
            None => {
                return None;
            },
            Some(s) => s.to_owned(),
        },
    };
    let name = match json_get(item, "Name") {
        None => {
            return None;
        },
        Some(w) => match json_as_str(w) {
            None => {
                return None;
            },
            Some(s) => s.to_owned(),
        },
    };
    let mode = match json_get(item, "Mode") {
        None => None,
        Some(w) => {
            if json_is_null(w) {
                None
            } else {
                match json_as_str(w) {
                    None => {
                        return None;
                    },
                    Some(s) => Some(s.to_owned()),
                }
            }
        },
    };
    Some(CatalogEntry { id, name, mode })
}

/// Parses one listing response body into catalog entries. Succeeds exactly
/// when the body is JSON of the listing shape; the entries are then pinned
/// element by element.
pub fn parse_listing(body: &str) -> (r: Result<Vec<CatalogEntry>, Error>)
    ensures
        match r {
            Ok(es) => spec_parse_listing(body@) matches Option::Some(s) && es@.map_values(
                |e: CatalogEntry| e@,
            ) == s,
            Err(e) => spec_parse_listing(body@) is None && e is Decode,
        },
{
    let v = match json_from_str(body) {
        None => {
            return Err(Error::Decode("the response body is not JSON".to_owned()));
        },
        Some(v) => v,
    };
    let d = match json_get(&v, "d") {
        None => {
            return Err(Error::Decode("the response has no member d".to_owned()));
        },
        Some(d) => d,
    };
    let results = match json_get(d, "results") {
        None => {
            return Err(Error::Decode("the response has no member results".to_owned()));
        },
        Some(r) => r,
    };
    let arr = match json_as_array(results) {
        None => {
            return Err(Error::Decode("the member results is not an array".to_owned()));
        },
        Some(a) => a,
    };
    let ghost els = match json_tree(*results) {
        JsonVal::Arr(els) => els,
        _ => Seq::empty(),
    };
    let mut entries: Vec<CatalogEntry> = Vec::new();
    let mut i: usize = 0;
    proof {
        assert(entries@.map_values(|e: CatalogEntry| e@) =~= Seq::<EntryView>::empty());
        assert(spec_entries_of(els.take(0)) == Option::Some(Seq::<EntryView>::empty()));
    }
    while i < arr.len()
        invariant
            i <= arr@.len(),
            arr@.map_values(|x: serde_json::Value| json_tree(x)) == els,
            els.len() == arr@.len(),
            spec_parse_listing(body@) == spec_entries_of(els),
            spec_entries_of(els.take(i as int)) == Option::Some(
                entries@.map_values(|e: CatalogEntry| e@),
            ),
        decreases arr@.len() - i,
    {
        proof {
            assert(els[i as int] == json_tree(arr@[i as int])) by {
                assert(arr@.map_values(|x: serde_json::Value| json_tree(x))[i as int] == json_tree(
                    arr@[i as int],
                ));
            }
            assert(els.take(i as int + 1).drop_last() =~= els.take(i as int));
            assert(els.take(i as int + 1).last() == els[i as int]);
        }
        let ghost pre = entries@.map_values(|e: CatalogEntry| e@);
        let entry = match parse_entry(&arr[i]) {
            None => {
                proof {
                    lemma_entries_bad(els, i as int);
                }
                return Err(Error::Decode("a listing entry is malformed".to_owned()));
            },
            Some(e) => e,
        };
        entries.push(entry);
        proof {
            assert(entries@.map_values(|e: CatalogEntry| e@) =~= pre.push(entry@));
        }
        i += 1;
    }
    proof {
        assert(els.take(els.len() as int) =~= els);
    }
    Ok(entries)
}

/// The compute half of one listing call: a non-success status fails with
/// the remote-API error carrying the URL, status and body; a success body
/// is parsed as a listing.
pub fn parse_listing_response(url: &str, status: u16, body: &str) -> (r: Result<
    Vec<CatalogEntry>,
    Error,
>)
    ensures
        !status_success(status) ==> (r matches Err(e) && e matches Error::RemoteApi {
            url: u,
            status: s,
            body: b,
        } && u@ == url@ && s == status && b@ == body@),
        status_success(status) ==> match r {
            Ok(es) => spec_parse_listing(body@) matches Option::Some(s) && es@.map_values(
                |e: CatalogEntry| e@,
            ) == s,
            Err(e) => spec_parse_listing(body@) is None && e is Decode,
        },
{
    if !crate::client::status_is_success(status) {
        return Err(
            Error::RemoteApi { url: url.to_owned(), status, body: body.to_owned() },
        );
    }
    parse_listing(body)
}

} // verus!
