//! The host table: which backends the pool has, as the host file names them,
//! and the base URL of each.
//!
//! The host file is a YAML document with a mapping at `apphost.hosts`; the
//! keys of that mapping are the hosts, in the order of the file, and the
//! values are not read.

use crate::target::{parsed_url, url_form};
use serde_yaml::{Mapping, Value};
use vstd::prelude::*;
use vstd::string::StringExecFns;

verus! {

/// Name of the host file, looked up in the working directory.
pub const HOST_FILE: &'static str = "hosts.yaml";

/// Why the host file gave no host table.
#[derive(Debug)]
pub enum HostFileError {
    /// The file is not YAML; the text is the parser's complaint.
    Unparsable(String),
    /// The document has no mapping at `apphost.hosts`, or a key of that
    /// mapping is not a string.
    Malformed,
}

/// Trusted. The type `serde_yaml::Value`; what is known of a value is what
/// `value_mappings` names.
#[verifier::external_type_specification]
#[verifier::external_body]
pub struct ExValue(Value);

/// Trusted. The type `serde_yaml::Mapping`; what is known of a mapping is what
/// `keys_of_mapping` names.
#[verifier::external_type_specification]
#[verifier::external_body]
pub struct ExMapping(Mapping);

/// Trusted. The type `serde_yaml::Error`, of which nothing is known here.
#[verifier::external_type_specification]
#[verifier::external_body]
pub struct ExError(serde_yaml::Error);

/// The mappings that a YAML value holds: for every path of string keys along
/// which indexing the value leads to a mapping, the keys of that mapping. The
/// empty path stands for the value itself.
pub uninterp spec fn value_mappings(value: Value) -> Map<Seq<Seq<char>>, Seq<Option<Seq<char>>>>;

/// The keys of a YAML mapping in its order, each as its text, or as `None` if
/// it is no string.
pub uninterp spec fn keys_of_mapping(mapping: Mapping) -> Seq<Option<Seq<char>>>;

/// The mappings of the document that `text` parses to, as `value_mappings`
/// gives them; `None` where `text` is no YAML document.
pub uninterp spec fn document_mappings(text: Seq<char>) -> Option<
    Map<Seq<Seq<char>>, Seq<Option<Seq<char>>>>,
>;

/// Of the mappings of a value, those of its entry at `key`: every path that
/// begins with `key`, without that key.
pub open spec fn mappings_below(
    mappings: Map<Seq<Seq<char>>, Seq<Option<Seq<char>>>>,
    key: Seq<char>,
) -> Map<Seq<Seq<char>>, Seq<Option<Seq<char>>>> {
    Map::new(
        |path: Seq<Seq<char>>| mappings.contains_key(seq![key] + path),
        |path: Seq<Seq<char>>| mappings[seq![key] + path],
    )
}

/// The texts of keys that were handed out as strings.
pub open spec fn texts_of(keys: Seq<Option<String>>) -> Seq<Option<Seq<char>>> {
    keys.map_values(
        |key: Option<String>|
            match key {
                Some(text) => Some(text@),
                None => None,
            },
    )
}

/// The path of the host mapping in the host file.
pub open spec fn hosts_path() -> Seq<Seq<char>> {
    seq!["apphost"@, "hosts"@]
}

/// The host names of a document with the mappings `mappings`: the keys of the
/// mapping at `apphost.hosts` in their order, where the document has that
/// mapping and every key of it is a string; `None` otherwise.
pub open spec fn hosts_named(mappings: Map<Seq<Seq<char>>, Seq<Option<Seq<char>>>>) -> Option<
    Seq<Seq<char>>,
> {
    if mappings.contains_key(hosts_path()) && forall|i: int|
        0 <= i < mappings[hosts_path()].len() ==> (#[trigger] mappings[hosts_path()][i]) is Some {
        Some(mappings[hosts_path()].map_values(|key: Option<Seq<char>>| key->0))
    } else {
        None
    }
}

/// The characters of each name.
pub open spec fn name_texts(names: Seq<String>) -> Seq<Seq<char>> {
    names.map_values(|name: String| name@)
}

/// Trusted. Calls `serde_yaml::from_str` for a `Value`. The contract claims
/// that whether the text parses, and which mappings the document then holds,
/// depends on the text alone.
#[verifier::external_body]
fn parse_document(text: &str) -> (out: Result<Value, serde_yaml::Error>)
    ensures
        match out {
            Ok(document) => document_mappings(text@) == Some(value_mappings(document)),
            Err(_) => document_mappings(text@) is None,
        },
{
    serde_yaml::from_str(text)
}

/// Trusted. Formats a `serde_yaml::Error` by its `Display`. Nothing is claimed
/// of the text.
#[verifier::external_body]
fn complaint(error: &serde_yaml::Error) -> String {
    format!("{}", error)
}

/// Trusted. Indexes a `Value` by a string key, which yields the entry at that
/// key of a mapping, and the null value where there is no such entry. The
/// contract claims that indexing the entry along a path is indexing the value
/// at the key and then along the path.
#[verifier::external_body]
fn entry<'a>(value: &'a Value, key: &str) -> (out: &'a Value)
    ensures
        value_mappings(*out) == mappings_below(value_mappings(*value), key@),
{
    &value[key]
}

/// Trusted. Calls `Value::as_mapping`, which yields the mapping that the value
/// is, and `None` for a value that is no mapping. The contract claims that
/// the value holds a mapping at the empty path exactly when one comes back,
/// and that its keys are then those of the mapping.
#[verifier::external_body]
fn as_mapping(value: &Value) -> (out: Option<&Mapping>)
    ensures
        match out {
            Some(mapping) => value_mappings(*value).contains_key(Seq::empty())
                && value_mappings(*value)[Seq::empty()] == keys_of_mapping(*mapping),
            None => !value_mappings(*value).contains_key(Seq::empty()),
        },
{
    value.as_mapping()
}

/// Trusted. Calls `Mapping::keys` and hands the keys out in its order, each
/// as the text that `Value::as_str` gives for it. The contract claims that
/// these are the keys that `keys_of_mapping` names.
#[verifier::external_body]
fn key_texts(mapping: &Mapping) -> (out: Vec<Option<String>>)
    ensures
        texts_of(out@) == keys_of_mapping(*mapping),
{
    mapping.keys().map(|key| key.as_str().map(String::from)).collect()
}

/// Every key is a string.
pub open spec fn all_texts(keys: Seq<Option<String>>) -> bool {
    forall|i: int| 0 <= i < keys.len() ==> (#[trigger] keys[i]) is Some
}

/// The host names that a document gives. `mapping_keys` holds the keys of the
/// mapping at `apphost.hosts`, each as its text or as `None` if it is no
/// string; it is `None` where the document has no such mapping. The names are
/// the keys, in their order, if there is a mapping and every key is a string.
pub fn host_names_in(mapping_keys: Option<&Vec<Option<String>>>) -> (out: Result<
    Vec<String>,
    HostFileError,
>)
    ensures
        match out {
            Ok(names) => {
                &&& mapping_keys matches Some(keys)
                &&& all_texts(keys@)
                &&& names@.len() == keys@.len()
                &&& forall|i: int| 0 <= i < keys@.len() ==> keys@[i] == Some(#[trigger] names@[i])
            },
            Err(error) => {
                &&& error is Malformed
                &&& mapping_keys matches Some(keys) ==> !all_texts(keys@)
            },
        },
{
    let keys = match mapping_keys {
        Some(keys) => keys,
        None => {
            return Err(HostFileError::Malformed);
        },
    };
    let mut names: Vec<String> = Vec::new();
    let mut i: usize = 0;
    while i < keys.len()
        invariant
            mapping_keys == Some(keys),
            i <= keys.len(),
            names@.len() == i,
            forall|k: int| 0 <= k < i ==> keys@[k] == Some(#[trigger] names@[k]),
        decreases keys.len() - i,
    {
        match &keys[i] {
            Some(name) => {
                names.push(name.clone());
            },
            None => {
                assert(keys@[i as int] is None);
                return Err(HostFileError::Malformed);
            },
        }
        i = i + 1;
    }
    proof {
        assert forall|k: int| 0 <= k < keys@.len() implies (#[trigger] keys@[k]) is Some by {
            assert(keys@[k] == Some(names@[k]));
        }
    }
    Ok(names)
}

/// The keys of the mapping at `apphost.hosts` of `document`, each as its text
/// or as `None` if it is no string; `None` where there is no such mapping.
fn host_keys(document: &Value) -> (out: Option<Vec<Option<String>>>)
    ensures
        match out {
            Some(keys) => value_mappings(*document).contains_key(hosts_path()) && texts_of(keys@)
                == value_mappings(*document)[hosts_path()],
            None => !value_mappings(*document).contains_key(hosts_path()),
        },
{
    let app = entry(document, "apphost");
    let hosts = entry(app, "hosts");
    proof {
        let none = Seq::<Seq<char>>::empty();
        assert(seq!["hosts"@] + none =~= seq!["hosts"@]);
        assert(seq!["apphost"@] + seq!["hosts"@] =~= hosts_path());
        assert(value_mappings(*hosts).contains_key(none) == value_mappings(*app).contains_key(
            seq!["hosts"@],
        ));
        assert(value_mappings(*app).contains_key(seq!["hosts"@]) == value_mappings(
            *document,
        ).contains_key(hosts_path()));
    }
    match as_mapping(hosts) {
        Some(mapping) => Some(key_texts(mapping)),
        None => None,
    }
}

/// Reads the host names from the text of the host file: the keys of the
/// mapping at `apphost.hosts`, in the order of the file. A text that is no
/// YAML is unparsable; a document without that mapping, or with a key in it
/// that is no string, is malformed.
pub fn read_host_names(text: &str) -> (out: Result<Vec<String>, HostFileError>)
    ensures
        match out {
            Ok(names) => document_mappings(text@) matches Some(mappings) && hosts_named(mappings)
                == Some(name_texts(names@)),
            Err(HostFileError::Unparsable(_)) => document_mappings(text@) is None,
            Err(HostFileError::Malformed) => document_mappings(text@) matches Some(mappings)
                && hosts_named(mappings) is None,
        },
{
    match parse_document(text) {
        Ok(document) => {
            let keys = host_keys(&document);
            let out = host_names_in(keys.as_ref());
            proof {
                if out is Ok {
                    let listed = value_mappings(document)[hosts_path()];
                    let found = keys->0;
                    let names = out->Ok_0;
                    assert forall|i: int| 0 <= i < listed.len() implies (#[trigger] listed[i])
                        is Some && listed[i]->0 == names@[i]@ by {
                        assert(texts_of(found@)[i] == listed[i]);
                        assert(found@[i] == Some(names@[i]));
                    }
                    assert(listed.map_values(|key: Option<Seq<char>>| key->0) =~= name_texts(
                        names@,
                    ));
                } else if keys is Some {
                    let listed = value_mappings(document)[hosts_path()];
                    let found = keys->0;
                    let i = choose|i: int| 0 <= i < found@.len() && !((#[trigger] found@[i])
                        is Some);
                    assert(texts_of(found@)[i] == listed[i]);
                    assert(!(listed[i] is Some));
                }
            }
            out
        },
        Err(error) => Err(HostFileError::Unparsable(complaint(&error))),
    }
}

/// Text of the base URL of the host at the socket address `address`.
pub open spec fn base_text(address: Seq<char>) -> Seq<char> {
    "http://"@ + address
}

/// The base URL of the host at the socket address `address`, over plain HTTP;
/// `None` where that is no URL.
pub fn host_base(address: &str) -> (out: Option<String>)
    ensures
        match out {
            Some(url) => url_form(base_text(address@)) == Some(url@),
            None => url_form(base_text(address@)) is None,
        },
{
    let text = String::from_str("http://").concat(address);
    parsed_url(text.as_str())
}

impl HostFileError {
    /// The text that tells the operator of the error.
    pub fn message(&self) -> (text: String)
        ensures
            text@ == match self {
                HostFileError::Unparsable(why) => why@,
                HostFileError::Malformed => "Failed to parse mapping from hosts.yaml"@,
            },
    {
        match self {
            HostFileError::Unparsable(why) => why.clone(),
            HostFileError::Malformed => String::from_str("Failed to parse mapping from hosts.yaml"),
        }
    }
}

} // verus!
