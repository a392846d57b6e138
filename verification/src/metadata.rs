//! Decoding the raw text of a metadata block.
//!
//! A decoder turns the text between the two delimiter lines into a value. Two
//! decoders come with the crate, both giving a map from strings to strings: the
//! flat one reads `key: value` lines, the structured one reads a YAML mapping.

use crate::chars::{
    blank, chars_of, find, find_in, lemma_find, lowercase, string_of, trim, trim_in,
};
use crate::line::{is_blank, lines, split_lines, views};
use std::collections::BTreeMap;
use vstd::hash_map::StringHashMap;
use vstd::prelude::*;

verus! {

/// Declares `serde_yaml::Error`, the error of the YAML decoder. Nothing is known of a value.
#[verifier::external_type_specification]
#[verifier::external_body]
pub struct ExYamlError(serde_yaml::Error);

/// What `serde_yaml::from_str` makes of `raw` when asked for a
/// `BTreeMap<String, String>`: the entries of the map, in the map's order, or `None`
/// where it fails.
pub uninterp spec fn yaml_mapping(raw: Seq<char>) -> Option<Seq<(Seq<char>, Seq<char>)>>;

/// Calls `serde_yaml::from_str` on `raw` for a `BTreeMap<String, String>` and hands the
/// entries of the map out in the map's order, or the error. The outcome depends on
/// `raw` alone; the contract gives it its name and says nothing else of it.
#[verifier::external_body]
fn yaml_entries(raw: &str) -> (out: Result<Vec<(String, String)>, serde_yaml::Error>)
    ensures
        (match out {
            Ok(entries) => yaml_mapping(raw@) == Some(pairs(entries@)),
            Err(_) => yaml_mapping(raw@) is None,
        }),
{
    let map: BTreeMap<String, String> = serde_yaml::from_str(raw)?;
    Ok(map.into_iter().collect())
}

/// The message of a `serde_yaml::Error`, as its `Display` impl writes it.
#[verifier::external_body]
fn yaml_message(error: &serde_yaml::Error) -> String {
    error.to_string()
}

/// Why a metadata block could not be decoded.
#[derive(Debug, PartialEq, Eq)]
pub enum DecodeError {
    /// A line of flat metadata is not blank and has no `:`. Holds the index of the
    /// first such line among the lines of the block.
    MissingSeparator(usize),
    /// The block is not a YAML mapping from strings to strings. Holds the message of
    /// the YAML decoder.
    InvalidYaml(String),
}

/// A map from strings to strings.
pub type StringMap = StringHashMap<String>;

/// A way to decode the raw text of a metadata block.
pub trait MetadataDecoder {
    /// What the decoder produces.
    type Metadata;

    /// Whether `out` is a result of decoding `raw`. A decoder that says nothing of its
    /// results admits all of them.
    open spec fn decodes(&self, raw: Seq<char>, out: Result<Self::Metadata, DecodeError>) -> bool {
        true
    }

    /// Decodes `raw`.
    fn decode(&self, raw: &str) -> (out: Result<Self::Metadata, DecodeError>)
        ensures
            self.decodes(raw@, out),
    ;
}

/// The views of the values of a map.
pub open spec fn values(map: Map<Seq<char>, String>) -> Map<Seq<char>, Seq<char>> {
    map.map_values(|value: String| value@)
}

/// The views of a sequence of pairs of strings.
pub open spec fn pairs(entries: Seq<(String, String)>) -> Seq<(Seq<char>, Seq<char>)> {
    entries.map_values(|entry: (String, String)| (entry.0@, entry.1@))
}

/// The map that holds `entries`; of two entries with one key the later one stays.
pub open spec fn map_of(entries: Seq<(Seq<char>, Seq<char>)>) -> Map<Seq<char>, Seq<char>>
    decreases entries.len(),
{
    if entries.len() == 0 {
        Map::empty()
    } else {
        map_of(entries.drop_last()).insert(entries.last().0, entries.last().1)
    }
}

/// A line of flat metadata is well formed when it is blank or has a `:`.
pub open spec fn separated(line: Seq<char>) -> bool {
    blank(line) || line.contains(':')
}

/// The entry that a line of flat metadata stands for: what is left of the first `:`,
/// trimmed and in lower case, and what is right of it, trimmed.
pub open spec fn flat_entry(line: Seq<char>) -> (Seq<char>, Seq<char>) {
    let colon = find(line, ':');
    (lowercase(trim(line.take(colon))), trim(line.skip(colon + 1)))
}

/// The entries of the lines of flat metadata that are not blank, in order.
pub open spec fn flat_entries(lines: Seq<Seq<char>>) -> Seq<(Seq<char>, Seq<char>)>
    decreases lines.len(),
{
    if lines.len() == 0 {
        Seq::empty()
    } else if blank(lines.last()) {
        flat_entries(lines.drop_last())
    } else {
        flat_entries(lines.drop_last()).push(flat_entry(lines.last()))
    }
}

/// What the flat strategy makes of `raw`: the map of the entries of its lines where
/// every line is well formed, and else the index of the first line that is not.
pub open spec fn flat_decoded(raw: Seq<char>, out: Result<StringMap, DecodeError>) -> bool {
    let all = lines(raw);
    match out {
        Ok(map) => {
            &&& forall|i: int| 0 <= i < all.len() ==> separated(#[trigger] all[i])
            &&& values(map@) == map_of(flat_entries(all))
        },
        Err(DecodeError::MissingSeparator(index)) => {
            &&& index < all.len()
            &&& !separated(all[index as int])
            &&& forall|i: int| 0 <= i < index ==> separated(#[trigger] all[i])
        },
        Err(DecodeError::InvalidYaml(_)) => false,
    }
}

/// What the structured strategy makes of `raw`: the map of the entries of the YAML
/// mapping, and an error where `raw` is no such mapping.
pub open spec fn yaml_decoded(raw: Seq<char>, out: Result<StringMap, DecodeError>) -> bool {
    match yaml_mapping(raw) {
        Some(entries) => out matches Ok(map) && values(map@) == map_of(entries),
        None => out matches Err(DecodeError::InvalidYaml(_)),
    }
}

/// Collects `entries` into a map; of two entries with one key the later one stays.
pub fn collect_entries(entries: Vec<(String, String)>) -> (map: StringMap)
    ensures
        values(map@) == map_of(pairs(entries@)),
{
    let mut map: StringMap = StringHashMap::new();
    proof {
        assert(values(map@) =~= Map::empty());
    }
    for entry in it: entries
        invariant
            it.seq() == entries@,
            values(map@) == map_of(pairs(entries@.take(it.index()))),
    {
        let ghost before = map@;
        let ghost done = pairs(entries@.take(it.index()));
        let (key, value) = entry;
        map.insert(key, value);
        proof {
            let next = pairs(entries@.take(it.index() + 1));
            assert(next.drop_last() =~= done);
            assert(next.last() == (key@, value@));
            assert(values(before.insert(key@, value)) =~= values(before).insert(key@, value@));
        }
    }
    proof {
        assert(entries@.take(entries@.len() as int) =~= entries@);
    }
    map
}

/// Decodes `raw` as flat metadata: one `key: value` entry on each line that is not
/// blank. Keys are trimmed and put in lower case, values are trimmed, and of two
/// entries with one key the later one stays.
pub fn decode_flat(raw: &str) -> (out: Result<StringMap, DecodeError>)
    ensures
        flat_decoded(raw@, out),
{
    let all = split_lines(raw);
    let mut entries: Vec<(String, String)> = Vec::new();
    let mut i: usize = 0;
    while i < all.len()
        invariant
            i <= all.len(),
            views(all@) == lines(raw@),
            forall|j: int| 0 <= j < i ==> separated(#[trigger] lines(raw@)[j]),
            pairs(entries@) == flat_entries(lines(raw@).take(i as int)),
        decreases all.len() - i,
    {
        let ghost line = lines(raw@)[i as int];
        let ghost done = lines(raw@).take(i as int);
        let ghost next = lines(raw@).take(i + 1);
        proof {
            assert(all@[i as int]@ == line);
            assert(next.drop_last() =~= done);
            assert(next.last() == line);
        }
        if !is_blank(all[i].as_str()) {
            let chars = chars_of(all[i].as_str());
            let n = chars.len();
            let colon = find_in(&chars, 0, n, ':');
            proof {
                assert(chars@.subrange(0, n as int) =~= line);
                lemma_find(line, ':');
            }
            if colon == n {
                return Err(DecodeError::MissingSeparator(i));
            }
            let key_bounds = trim_in(&chars, 0, colon);
            let value_bounds = trim_in(&chars, colon + 1, n);
            let key = string_of(&chars, key_bounds.0, key_bounds.1).as_str().to_lowercase();
            let value = string_of(&chars, value_bounds.0, value_bounds.1);
            proof {
                assert(chars@.subrange(0, colon as int) =~= line.take(colon as int));
                assert(chars@.subrange(colon + 1, n as int) =~= line.skip(colon + 1));
                assert((key@, value@) == flat_entry(line));
            }
            let ghost before = pairs(entries@);
            entries.push((key, value));
            proof {
                assert(pairs(entries@) =~= before.push(flat_entry(line)));
            }
        }
        i += 1;
    }
    proof {
        assert(lines(raw@).take(i as int) =~= lines(raw@));
    }
    Ok(collect_entries(entries))
}

/// Decodes `raw` as a YAML mapping from strings to strings.
pub fn decode_yaml(raw: &str) -> (out: Result<StringMap, DecodeError>)
    ensures
        yaml_decoded(raw@, out),
{
    match yaml_entries(raw) {
        Ok(entries) => Ok(collect_entries(entries)),
        Err(error) => Err(DecodeError::InvalidYaml(yaml_message(&error))),
    }
}

/// The flat strategy: `key: value` lines.
#[derive(Debug, Clone, Copy, Default)]
pub struct FlatDecoder;

/// The structured strategy for maps of strings: a YAML mapping.
#[derive(Debug, Clone, Copy, Default)]
pub struct YamlDecoder;

impl MetadataDecoder for FlatDecoder {
    type Metadata = StringMap;

    open spec fn decodes(&self, raw: Seq<char>, out: Result<StringMap, DecodeError>) -> bool {
        flat_decoded(raw, out)
    }

    fn decode(&self, raw: &str) -> (out: Result<StringMap, DecodeError>) {
        decode_flat(raw)
    }
}

impl MetadataDecoder for YamlDecoder {
    type Metadata = StringMap;

    open spec fn decodes(&self, raw: Seq<char>, out: Result<StringMap, DecodeError>) -> bool {
        yaml_decoded(raw, out)
    }

    fn decode(&self, raw: &str) -> (out: Result<StringMap, DecodeError>) {
        decode_yaml(raw)
    }
}

} // verus!
