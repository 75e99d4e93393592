//! The parsed specification document and the trusted boundary to the YAML
//! parser.  A document node is abstracted as a `DocModel`: a text scalar, a
//! mapping in document order, or anything else.  The generator's logic is
//! verified against that abstraction; the parser and the accessors of
//! `yaml_rust` stand behind trusted wrappers.

use vstd::prelude::*;
use yaml_rust::ScanError;
use yaml_rust::Yaml;
use yaml_rust::YamlLoader;

verus! {

/// The abstract value of a parsed document node: a text scalar, a mapping
/// from nodes to nodes in document order, or anything else (a number, a
/// boolean, a sequence, a null), which the generator never reads into.
pub enum DocModel {
    Text(Seq<char>),
    Mapping(Seq<(DocModel, DocModel)>),
    Other,
}

#[verifier::external_type_specification]
#[verifier::external_body]
pub struct ExYaml(Yaml);

#[verifier::external_type_specification]
#[verifier::external_body]
pub struct ExScanError(ScanError);

/// The abstract value of a `Yaml` node: `Text` for a string scalar,
/// `Mapping` for a hash with its entries in document order, `Other` for
/// everything else.
pub uninterp spec fn yaml_model(y: Yaml) -> DocModel;

/// The abstract parse of a source text: the values of its documents, or
/// `None` when the text is not valid YAML.  Parsing is a function of the
/// text alone.
pub uninterp spec fn parse_model(s: Seq<char>) -> Option<Seq<DocModel>>;

/// Relies on `yaml_rust::YamlLoader::load_from_str`: parses the text into
/// its sequence of documents, deterministically; it fails exactly on text
/// that is not valid YAML.
#[verifier::external_body]
pub fn parse_documents(s: &str) -> (r: Result<Vec<Yaml>, ScanError>)
    ensures
        match r {
            Ok(docs) => parse_model(s@) matches Some(ms) && docs@.len() == ms.len() && (forall|
                i: int,
            |
                0 <= i < ms.len() ==> yaml_model(docs@[i]) == #[trigger] ms[i]),
            Err(_) => parse_model(s@) is None,
        },
{
    YamlLoader::load_from_str(s)
}

/// Relies on `yaml_rust::Yaml::as_hash` and the insertion-order iteration
/// of `linked_hash_map::LinkedHashMap`: the entries of a mapping node, in
/// document order; `None` on any other node.
#[verifier::external_body]
pub fn hash_entries(y: &Yaml) -> (r: Option<Vec<(Yaml, Yaml)>>)
    ensures
        match yaml_model(*y) {
            DocModel::Mapping(es) => r matches Some(v) && v@.len() == es.len() && (forall|i: int|
                0 <= i < es.len() ==> yaml_model(v@[i].0) == (#[trigger] es[i]).0 && yaml_model(
                    v@[i].1,
                ) == es[i].1),
            _ => r is None,
        },
{
    match y.as_hash() {
        Some(h) => Some(h.iter().map(|(k, v)| (k.clone(), v.clone())).collect()),
        None => None,
    }
}

/// Relies on `yaml_rust::Yaml::as_str`: the text of a string scalar node;
/// `None` on any other node.
#[verifier::external_body]
pub fn text_of(y: &Yaml) -> (r: Option<String>)
    ensures
        match yaml_model(*y) {
            DocModel::Text(t) => r matches Some(s) && s@ == t,
            _ => r is None,
        },
{
    match y.as_str() {
        Some(s) => Some(s.to_owned()),
        None => None,
    }
}

} // verus!
