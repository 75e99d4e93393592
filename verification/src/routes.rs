//! The route model builder: walks the `paths` section of the parsed
//! specification document, in document order, and produces the routing
//! table, or the first structural error it meets.

use vstd::prelude::*;
use yaml_rust::Yaml;
use crate::document::DocModel;
use crate::document::hash_entries;
use crate::document::text_of;
use crate::document::yaml_model;
use crate::ident::lemma_snake_nonempty;
use crate::ident::normalize;
use crate::ident::snake_spec;

verus! {

use vstd::string::StringExecFns;

/// Why a parsed document is rejected by the builder.
#[derive(Clone, Copy, Debug, PartialEq, Eq, Structural)]
pub enum MalformedSpecError {
    /// `paths` is missing, or the document or its `paths` value is not a
    /// mapping.
    MissingPaths,
    /// A path key is not a non-empty string.
    InvalidPath,
    /// A path-item is not a mapping.
    PathItemNotMapping,
    /// A path-item has no methods.
    EmptyPathItem,
    /// A method key is not one of the recognized HTTP verbs.
    UnrecognizedMethod,
    /// An operation is missing `operationId`, or it is not a non-empty
    /// string.
    InvalidOperationId,
}

impl MalformedSpecError {
    /// A short description of the error, for reporting.
    pub fn message(&self) -> (r: String)
        ensures
            r@ == self.message_spec(),
    {
        match self {
            MalformedSpecError::MissingPaths => String::from_str(
                "the specification has no paths mapping",
            ),
            MalformedSpecError::InvalidPath => String::from_str(
                "a path key is not a non-empty string",
            ),
            MalformedSpecError::PathItemNotMapping => String::from_str(
                "a path-item is not a mapping",
            ),
            MalformedSpecError::EmptyPathItem => String::from_str("a path-item has no methods"),
            MalformedSpecError::UnrecognizedMethod => String::from_str(
                "a method key is not a recognized HTTP verb",
            ),
            MalformedSpecError::InvalidOperationId => String::from_str(
                "an operation is missing a non-empty operationId",
            ),
        }
    }

    /// The description's text.
    pub open spec fn message_spec(&self) -> Seq<char> {
        match self {
            MalformedSpecError::MissingPaths => "the specification has no paths mapping"@,
            MalformedSpecError::InvalidPath => "a path key is not a non-empty string"@,
            MalformedSpecError::PathItemNotMapping => "a path-item is not a mapping"@,
            MalformedSpecError::EmptyPathItem => "a path-item has no methods"@,
            MalformedSpecError::UnrecognizedMethod => "a method key is not a recognized HTTP verb"@,
            MalformedSpecError::InvalidOperationId => "an operation is missing a non-empty operationId"@,
        }
    }
}

/// One method registration: the verb and the normalized handler identifier.
#[derive(Debug)]
pub struct MethodBinding {
    pub method: String,
    pub handler: String,
}

/// The abstract value of a `MethodBinding`.
pub struct BindingModel {
    pub method: Seq<char>,
    pub handler: Seq<char>,
}

impl View for MethodBinding {
    type V = BindingModel;

    open spec fn view(&self) -> BindingModel {
        BindingModel { method: self.method@, handler: self.handler@ }
    }
}

/// One path with its method registrations, in document order.
#[derive(Debug)]
pub struct RouteEntry {
    pub path: String,
    pub bindings: Vec<MethodBinding>,
}

/// The abstract value of a `RouteEntry`.
pub struct EntryModel {
    pub path: Seq<char>,
    pub bindings: Seq<BindingModel>,
}

/// The views of a sequence of method bindings.
pub open spec fn binding_views(s: Seq<MethodBinding>) -> Seq<BindingModel> {
    Seq::new(s.len(), |i: int| s[i]@)
}

impl View for RouteEntry {
    type V = EntryModel;

    open spec fn view(&self) -> EntryModel {
        EntryModel { path: self.path@, bindings: binding_views(self.bindings@) }
    }
}

/// The views of a sequence of route entries.
pub open spec fn entry_views(s: Seq<RouteEntry>) -> Seq<EntryModel> {
    Seq::new(s.len(), |i: int| s[i]@)
}

/// The routing table: one entry per path, in document order.
#[derive(Debug)]
pub struct RouteTable {
    pub entries: Vec<RouteEntry>,
}

impl View for RouteTable {
    type V = Seq<EntryModel>;

    open spec fn view(&self) -> Seq<EntryModel> {
        entry_views(self.entries@)
    }
}

/// The recognized HTTP verbs, lower-case.
pub open spec fn recognized_verb(m: Seq<char>) -> bool {
    ||| m == "get"@
    ||| m == "post"@
    ||| m == "put"@
    ||| m == "delete"@
    ||| m == "patch"@
    ||| m == "head"@
    ||| m == "options"@
    ||| m == "trace"@
}

/// The value under the first entry of `es` whose key is the text `key`,
/// if any.
pub open spec fn map_lookup(es: Seq<(DocModel, DocModel)>, key: Seq<char>) -> Option<DocModel>
    decreases es.len(),
{
    if es.len() == 0 {
        None
    } else if es[0].0 matches DocModel::Text(t) && t == key {
        Some(es[0].1)
    } else {
        map_lookup(es.drop_first(), key)
    }
}

/// One method entry of a path-item: the verb must be recognized and the
/// operation must carry a non-empty `operationId` string, which is
/// normalized into the handler identifier.
pub open spec fn build_binding(k: DocModel, v: DocModel) -> Result<BindingModel, MalformedSpecError> {
    match k {
        DocModel::Text(m) => if !recognized_verb(m) {
            Err(MalformedSpecError::UnrecognizedMethod)
        } else {
            match v {
                DocModel::Mapping(ops) => match map_lookup(ops, "operationId"@) {
                    Some(DocModel::Text(op)) => if op.len() == 0 {
                        Err(MalformedSpecError::InvalidOperationId)
                    } else {
                        Ok(BindingModel { method: m, handler: snake_spec(op) })
                    },
                    _ => Err(MalformedSpecError::InvalidOperationId),
                },
                _ => Err(MalformedSpecError::InvalidOperationId),
            }
        },
        _ => Err(MalformedSpecError::UnrecognizedMethod),
    }
}

/// The method bindings of a path-item's entries, in document order; the
/// first error wins.
pub open spec fn build_bindings(es: Seq<(DocModel, DocModel)>) -> Result<
    Seq<BindingModel>,
    MalformedSpecError,
>
    decreases es.len(),
{
    if es.len() == 0 {
        Ok(Seq::empty())
    } else {
        match build_binding(es[0].0, es[0].1) {
            Err(e) => Err(e),
            Ok(b) => match build_bindings(es.drop_first()) {
                Err(e) => Err(e),
                Ok(t) => Ok(seq![b] + t),
            },
        }
    }
}

/// One entry of the `paths` mapping: the path must be a non-empty string
/// and the path-item a non-empty mapping of method entries.
pub open spec fn build_entry(k: DocModel, v: DocModel) -> Result<EntryModel, MalformedSpecError> {
    match k {
        DocModel::Text(p) => if p.len() == 0 {
            Err(MalformedSpecError::InvalidPath)
        } else {
            match v {
                DocModel::Mapping(ms) => if ms.len() == 0 {
                    Err(MalformedSpecError::EmptyPathItem)
                } else {
                    match build_bindings(ms) {
                        Err(e) => Err(e),
                        Ok(bs) => Ok(EntryModel { path: p, bindings: bs }),
                    }
                },
                _ => Err(MalformedSpecError::PathItemNotMapping),
            }
        },
        _ => Err(MalformedSpecError::InvalidPath),
    }
}

/// The route entries of the `paths` mapping, in document order; the first
/// error wins.
pub open spec fn build_entries(es: Seq<(DocModel, DocModel)>) -> Result<
    Seq<EntryModel>,
    MalformedSpecError,
>
    decreases es.len(),
{
    if es.len() == 0 {
        Ok(Seq::empty())
    } else {
        match build_entry(es[0].0, es[0].1) {
            Err(e) => Err(e),
            Ok(r) => match build_entries(es.drop_first()) {
                Err(e) => Err(e),
                Ok(t) => Ok(seq![r] + t),
            },
        }
    }
}

/// The routing table of a whole document: the entries under its `paths`
/// mapping.
pub open spec fn build_table(doc: DocModel) -> Result<Seq<EntryModel>, MalformedSpecError> {
    match doc {
        DocModel::Mapping(root) => match map_lookup(root, "paths"@) {
            Some(DocModel::Mapping(ps)) => build_entries(ps),
            _ => Err(MalformedSpecError::MissingPaths),
        },
        _ => Err(MalformedSpecError::MissingPaths),
    }
}

/// The abstract value of a built table result.
pub open spec fn table_result_view(r: Result<RouteTable, MalformedSpecError>) -> Result<
    Seq<EntryModel>,
    MalformedSpecError,
> {
    match r {
        Ok(t) => Ok(t@),
        Err(e) => Err(e),
    }
}

/// Whether the method string is one of the recognized HTTP verbs.
pub fn is_recognized_verb(m: &String) -> (b: bool)
    ensures
        b == recognized_verb(m@),
{
    *m == String::from_str("get") || *m == String::from_str("post") || *m == String::from_str("put")
        || *m == String::from_str("delete") || *m == String::from_str("patch") || *m
        == String::from_str("head") || *m == String::from_str("options") || *m == String::from_str(
        "trace",
    )
}

/// Position of the first entry whose key is the text `key`, searching from
/// `i` on; mirrors `map_lookup`.
fn lookup_in(
    entries: &Vec<(Yaml, Yaml)>,
    i: usize,
    key: &String,
    Ghost(es): Ghost<Seq<(DocModel, DocModel)>>,
) -> (r: Option<usize>)
    requires
        i <= entries.len(),
        entries@.len() == es.len(),
        forall|j: int|
            0 <= j < es.len() ==> yaml_model(entries@[j].0) == (#[trigger] es[j]).0 && yaml_model(
                entries@[j].1,
            ) == es[j].1,
    ensures
        match map_lookup(es.skip(i as int), key@) {
            Some(m) => r matches Some(ix) && i <= ix < entries.len() && yaml_model(
                entries@[ix as int].1,
            ) == m,
            None => r is None,
        },
    decreases entries.len() - i,
{
    let ghost sub = es.skip(i as int);
    if i == entries.len() {
        proof {
            assert(sub =~= Seq::<(DocModel, DocModel)>::empty());
        }
        None
    } else {
        proof {
            assert(sub[0] == es[i as int]);
            assert(sub.drop_first() =~= es.skip(i as int + 1));
        }
        let hit = match text_of(&entries[i].0) {
            Some(t) => t == *key,
            None => false,
        };
        if hit {
            Some(i)
        } else {
            lookup_in(entries, i + 1, key, Ghost(es))
        }
    }
}

/// The method bindings of the entries from `i` on; mirrors `build_bindings`.
fn bindings_from(
    entries: &Vec<(Yaml, Yaml)>,
    i: usize,
    Ghost(es): Ghost<Seq<(DocModel, DocModel)>>,
) -> (r: Result<Vec<MethodBinding>, MalformedSpecError>)
    requires
        i <= entries.len(),
        entries@.len() == es.len(),
        forall|j: int|
            0 <= j < es.len() ==> yaml_model(entries@[j].0) == (#[trigger] es[j]).0 && yaml_model(
                entries@[j].1,
            ) == es[j].1,
    ensures
        (match r {
            Ok(v) => build_bindings(es.skip(i as int)) == Ok::<_, MalformedSpecError>(
                binding_views(v@),
            ),
            Err(e) => build_bindings(es.skip(i as int)) == Err::<Seq<BindingModel>, _>(e),
        }),
    decreases entries.len() - i,
{
    let ghost sub = es.skip(i as int);
    if i == entries.len() {
        proof {
            assert(sub =~= Seq::<(DocModel, DocModel)>::empty());
        }
        let v: Vec<MethodBinding> = Vec::new();
        proof {
            assert(binding_views(v@) =~= Seq::<BindingModel>::empty());
        }
        Ok(v)
    } else {
        proof {
            assert(sub[0] == es[i as int]);
            assert(sub.drop_first() =~= es.skip(i as int + 1));
        }
        let m = match text_of(&entries[i].0) {
            Some(t) => t,
            None => {
                return Err(MalformedSpecError::UnrecognizedMethod);
            },
        };
        if !is_recognized_verb(&m) {
            return Err(MalformedSpecError::UnrecognizedMethod);
        }
        let ops = match hash_entries(&entries[i].1) {
            Some(o) => o,
            None => {
                return Err(MalformedSpecError::InvalidOperationId);
            },
        };
        let ghost oes = yaml_model(entries@[i as int].1)->Mapping_0;
        let key = String::from_str("operationId");
        let ix = match lookup_in(&ops, 0, &key, Ghost(oes)) {
            Some(ix) => ix,
            None => {
                proof {
                    assert(oes.skip(0) =~= oes);
                }
                return Err(MalformedSpecError::InvalidOperationId);
            },
        };
        proof {
            assert(oes.skip(0) =~= oes);
        }
        let op = match text_of(&ops[ix].1) {
            Some(t) => t,
            None => {
                return Err(MalformedSpecError::InvalidOperationId);
            },
        };
        if op.as_str().is_empty() {
            return Err(MalformedSpecError::InvalidOperationId);
        }
        let handler = normalize(op.as_str());
        let binding = MethodBinding { method: m, handler };
        let ghost bm = binding@;
        match bindings_from(entries, i + 1, Ghost(es)) {
            Err(e) => Err(e),
            Ok(mut rest) => {
                let ghost old_rest = rest@;
                rest.insert(0, binding);
                proof {
                    assert(binding_views(rest@) =~= seq![bm] + binding_views(old_rest));
                }
                Ok(rest)
            },
        }
    }
}

/// The route entries from `i` on; mirrors `build_entries`.
fn entries_from(
    entries: &Vec<(Yaml, Yaml)>,
    i: usize,
    Ghost(es): Ghost<Seq<(DocModel, DocModel)>>,
) -> (r: Result<Vec<RouteEntry>, MalformedSpecError>)
    requires
        i <= entries.len(),
        entries@.len() == es.len(),
        forall|j: int|
            0 <= j < es.len() ==> yaml_model(entries@[j].0) == (#[trigger] es[j]).0 && yaml_model(
                entries@[j].1,
            ) == es[j].1,
    ensures
        (match r {
            Ok(v) => build_entries(es.skip(i as int)) == Ok::<_, MalformedSpecError>(
                entry_views(v@),
            ),
            Err(e) => build_entries(es.skip(i as int)) == Err::<Seq<EntryModel>, _>(e),
        }),
    decreases entries.len() - i,
{
    let ghost sub = es.skip(i as int);
    if i == entries.len() {
        proof {
            assert(sub =~= Seq::<(DocModel, DocModel)>::empty());
        }
        let v: Vec<RouteEntry> = Vec::new();
        proof {
            assert(entry_views(v@) =~= Seq::<EntryModel>::empty());
        }
        Ok(v)
    } else {
        proof {
            assert(sub[0] == es[i as int]);
            assert(sub.drop_first() =~= es.skip(i as int + 1));
        }
        let p = match text_of(&entries[i].0) {
            Some(t) => t,
            None => {
                return Err(MalformedSpecError::InvalidPath);
            },
        };
        if p.as_str().is_empty() {
            return Err(MalformedSpecError::InvalidPath);
        }
        let methods = match hash_entries(&entries[i].1) {
            Some(o) => o,
            None => {
                return Err(MalformedSpecError::PathItemNotMapping);
            },
        };
        let ghost mes = yaml_model(entries@[i as int].1)->Mapping_0;
        if methods.len() == 0 {
            return Err(MalformedSpecError::EmptyPathItem);
        }
        let bindings = match bindings_from(&methods, 0, Ghost(mes)) {
            Ok(bs) => bs,
            Err(e) => {
                proof {
                    assert(mes.skip(0) =~= mes);
                }
                return Err(e);
            },
        };
        proof {
            assert(mes.skip(0) =~= mes);
        }
        let entry = RouteEntry { path: p, bindings };
        let ghost em = entry@;
        match entries_from(entries, i + 1, Ghost(es)) {
            Err(e) => Err(e),
            Ok(mut rest) => {
                let ghost old_rest = rest@;
                rest.insert(0, entry);
                proof {
                    assert(entry_views(rest@) =~= seq![em] + entry_views(old_rest));
                }
                Ok(rest)
            },
        }
    }
}

/// Builds the routing table of a parsed document: walks the `paths`
/// mapping in document order and collects, for each path, its method
/// registrations; fails with the first structural error, exactly as
/// `build_table` of the document's abstract value says.
pub fn build(doc: &Yaml) -> (r: Result<RouteTable, MalformedSpecError>)
    ensures
        table_result_view(r) == build_table(yaml_model(*doc)),
{
    let root = match hash_entries(doc) {
        Some(v) => v,
        None => {
            return Err(MalformedSpecError::MissingPaths);
        },
    };
    let ghost res = yaml_model(*doc)->Mapping_0;
    let key = String::from_str("paths");
    let ix = match lookup_in(&root, 0, &key, Ghost(res)) {
        Some(ix) => ix,
        None => {
            proof {
                assert(res.skip(0) =~= res);
            }
            return Err(MalformedSpecError::MissingPaths);
        },
    };
    proof {
        assert(res.skip(0) =~= res);
    }
    let paths = match hash_entries(&root[ix].1) {
        Some(v) => v,
        None => {
            return Err(MalformedSpecError::MissingPaths);
        },
    };
    let ghost pes = yaml_model(root@[ix as int].1)->Mapping_0;
    match entries_from(&paths, 0, Ghost(pes)) {
        Ok(v) => {
            proof {
                assert(pes.skip(0) =~= pes);
            }
            Ok(RouteTable { entries: v })
        },
        Err(e) => {
            proof {
                assert(pes.skip(0) =~= pes);
            }
            Err(e)
        },
    }
}

/// One failing method entry fails the whole path-item.
proof fn lemma_binding_err_propagates(ms: Seq<(DocModel, DocModel)>, j: int)
    requires
        0 <= j < ms.len(),
        build_binding(ms[j].0, ms[j].1) is Err,
    ensures
        build_bindings(ms) is Err,
    decreases ms.len(),
{
    if j > 0 {
        assert(ms.drop_first()[j - 1] == ms[j]);
        lemma_binding_err_propagates(ms.drop_first(), j - 1);
    }
}

/// One failing path entry fails the whole build.
proof fn lemma_entry_err_propagates(es: Seq<(DocModel, DocModel)>, i: int)
    requires
        0 <= i < es.len(),
        build_entry(es[i].0, es[i].1) is Err,
    ensures
        build_entries(es) is Err,
    decreases es.len(),
{
    if i > 0 {
        assert(es.drop_first()[i - 1] == es[i]);
        lemma_entry_err_propagates(es.drop_first(), i - 1);
    }
}

/// Rejection of a document without a `paths` mapping: when the document is
/// not a mapping, or has no `paths` key, or its `paths` value is not a
/// mapping, the build fails.
pub proof fn lemma_missing_paths_rejected(doc: DocModel)
    requires
        (match doc {
            DocModel::Mapping(root) => !(map_lookup(root, "paths"@) matches Some(
                DocModel::Mapping(ps),
            )),
            _ => true,
        }),
    ensures
        build_table(doc) == Err::<Seq<EntryModel>, _>(MalformedSpecError::MissingPaths),
{
}

/// Rejection of an empty path-item: a path whose item is a mapping with
/// zero methods fails the build.
pub proof fn lemma_empty_path_item_rejected(es: Seq<(DocModel, DocModel)>, i: int)
    requires
        0 <= i < es.len(),
        es[i].1 matches DocModel::Mapping(ms) && ms.len() == 0,
    ensures
        build_entries(es) is Err,
{
    lemma_entry_err_propagates(es, i);
}

/// Rejection of an operation without a usable `operationId`: a method
/// entry whose operation is not a mapping, or has no `operationId`, or
/// holds one that is not a non-empty string, fails the build.
pub proof fn lemma_missing_operation_id_rejected(
    es: Seq<(DocModel, DocModel)>,
    i: int,
    j: int,
)
    requires
        0 <= i < es.len(),
        es[i].1 matches DocModel::Mapping(ms) && 0 <= j < ms.len(),
        (match es[i].1->Mapping_0[j].1 {
            DocModel::Mapping(ops) => !(map_lookup(ops, "operationId"@) matches Some(
                DocModel::Text(op),
            ) && op.len() > 0),
            _ => true,
        }),
    ensures
        build_entries(es) is Err,
{
    let ms = es[i].1->Mapping_0;
    lemma_binding_err_propagates(ms, j);
    lemma_entry_err_propagates(es, i);
}

/// Rejection of an unrecognized verb: a method key outside the recognized
/// HTTP verb set fails the build.
pub proof fn lemma_unrecognized_verb_rejected(es: Seq<(DocModel, DocModel)>, i: int, j: int)
    requires
        0 <= i < es.len(),
        es[i].1 matches DocModel::Mapping(ms) && 0 <= j < ms.len(),
        !(es[i].1->Mapping_0[j].0 matches DocModel::Text(m) && recognized_verb(m)),
    ensures
        build_entries(es) is Err,
{
    let ms = es[i].1->Mapping_0;
    lemma_binding_err_propagates(ms, j);
    lemma_entry_err_propagates(es, i);
}

/// A well-formed routing table: every path is non-empty, every entry has
/// at least one binding, every method is a recognized verb, and every
/// handler identifier is non-empty.
pub open spec fn table_well_formed(t: Seq<EntryModel>) -> bool {
    forall|i: int|
        0 <= i < t.len() ==> {
            &&& (#[trigger] t[i]).path.len() > 0
            &&& t[i].bindings.len() > 0
            &&& forall|j: int|
                0 <= j < t[i].bindings.len() ==> recognized_verb(
                    (#[trigger] t[i].bindings[j]).method,
                ) && t[i].bindings[j].handler.len() > 0
        }
}

/// Every binding of a successfully built path-item carries a recognized
/// verb and a non-empty handler identifier.
proof fn lemma_bindings_well_formed(ms: Seq<(DocModel, DocModel)>, bs: Seq<BindingModel>)
    requires
        build_bindings(ms) == Ok::<_, MalformedSpecError>(bs),
    ensures
        bs.len() == ms.len(),
        forall|j: int|
            0 <= j < bs.len() ==> recognized_verb((#[trigger] bs[j]).method) && bs[j].handler.len()
                > 0,
    decreases ms.len(),
{
    if ms.len() == 0 {
    } else {
        let r0 = build_binding(ms[0].0, ms[0].1);
        assert(r0 is Ok);
        let b0 = r0->Ok_0;
        let rt = build_bindings(ms.drop_first());
        assert(rt is Ok);
        let tail = rt->Ok_0;
        assert(bs == seq![b0] + tail);
        lemma_bindings_well_formed(ms.drop_first(), tail);
        let op = map_lookup(ms[0].1->Mapping_0, "operationId"@)->Some_0->Text_0;
        assert(b0.handler == snake_spec(op));
        lemma_snake_nonempty(op);
        assert forall|j: int| 0 <= j < bs.len() implies recognized_verb((#[trigger] bs[j]).method)
            && bs[j].handler.len() > 0 by {
            if j == 0 {
                assert(bs[0] == b0);
            } else {
                assert(bs[j] == tail[j - 1]);
            }
        }
    }
}

/// The routing-table invariant: a successful build yields a well-formed
/// table — non-empty paths, at least one binding per entry, recognized
/// verbs, non-empty handler identifiers.
pub proof fn lemma_build_well_formed(es: Seq<(DocModel, DocModel)>, t: Seq<EntryModel>)
    requires
        build_entries(es) == Ok::<_, MalformedSpecError>(t),
    ensures
        table_well_formed(t),
    decreases es.len(),
{
    if es.len() == 0 {
    } else {
        let r0 = build_entry(es[0].0, es[0].1);
        assert(r0 is Ok);
        let e0 = r0->Ok_0;
        let rt = build_entries(es.drop_first());
        assert(rt is Ok);
        let tail = rt->Ok_0;
        assert(t == seq![e0] + tail);
        lemma_build_well_formed(es.drop_first(), tail);
        let ms = es[0].1->Mapping_0;
        lemma_bindings_well_formed(ms, e0.bindings);
        assert forall|i: int| 0 <= i < t.len() implies (#[trigger] t[i]).path.len() > 0
            && t[i].bindings.len() > 0 && (forall|j: int|
            0 <= j < t[i].bindings.len() ==> recognized_verb((#[trigger] t[i].bindings[j]).method)
                && t[i].bindings[j].handler.len() > 0) by {
            if i == 0 {
                assert(t[0] == e0);
            } else {
                assert(t[i] == tail[i - 1]);
            }
        }
    }
}

/// The binding carries exactly the method entry's verb and the normalized
/// form of its operation's `operationId`.
pub open spec fn binding_matches(kv: (DocModel, DocModel), b: BindingModel) -> bool {
    &&& kv.0 matches DocModel::Text(m) && b.method == m
    &&& kv.1 matches DocModel::Mapping(ops) && map_lookup(ops, "operationId"@) matches Some(
        DocModel::Text(op),
    ) && b.handler == snake_spec(op)
}

/// The bindings correspond to the method entries one for one, in order.
pub open spec fn bindings_match(ms: Seq<(DocModel, DocModel)>, bs: Seq<BindingModel>) -> bool {
    bs.len() == ms.len() && forall|j: int|
        0 <= j < ms.len() ==> binding_matches(#[trigger] ms[j], bs[j])
}

/// The entry carries exactly the path entry's key, and its bindings
/// correspond to the path-item's method entries one for one, in order.
pub open spec fn entry_matches(kv: (DocModel, DocModel), e: EntryModel) -> bool {
    &&& kv.0 matches DocModel::Text(p) && e.path == p
    &&& kv.1 matches DocModel::Mapping(ms) && bindings_match(ms, e.bindings)
}

/// Order preservation within a path-item: a successful build maps the
/// method entries to the bindings one for one, in document order.
pub proof fn lemma_bindings_order(ms: Seq<(DocModel, DocModel)>, bs: Seq<BindingModel>)
    requires
        build_bindings(ms) == Ok::<_, MalformedSpecError>(bs),
    ensures
        bindings_match(ms, bs),
    decreases ms.len(),
{
    if ms.len() == 0 {
    } else {
        let r0 = build_binding(ms[0].0, ms[0].1);
        assert(r0 is Ok);
        let b0 = r0->Ok_0;
        let rt = build_bindings(ms.drop_first());
        assert(rt is Ok);
        let tail = rt->Ok_0;
        assert(bs == seq![b0] + tail);
        lemma_bindings_order(ms.drop_first(), tail);
        assert(binding_matches(ms[0], b0));
        assert forall|j: int| 0 <= j < ms.len() implies binding_matches(#[trigger] ms[j], bs[j]) by {
            if j == 0 {
                assert(bs[0] == b0);
            } else {
                assert(ms[j] == ms.drop_first()[j - 1]);
                assert(bs[j] == tail[j - 1]);
            }
        }
    }
}

/// Order preservation: a successful build maps the path entries to the
/// route entries one for one, in document order, and within each entry the
/// method entries to the bindings one for one, in document order.  The
/// renderer then emits the registrations by folding the table in exactly
/// that order.
pub proof fn lemma_order_preservation(es: Seq<(DocModel, DocModel)>, t: Seq<EntryModel>)
    requires
        build_entries(es) == Ok::<_, MalformedSpecError>(t),
    ensures
        t.len() == es.len(),
        forall|i: int| 0 <= i < es.len() ==> entry_matches(#[trigger] es[i], t[i]),
    decreases es.len(),
{
    if es.len() == 0 {
    } else {
        let r0 = build_entry(es[0].0, es[0].1);
        assert(r0 is Ok);
        let e0 = r0->Ok_0;
        let rt = build_entries(es.drop_first());
        assert(rt is Ok);
        let tail = rt->Ok_0;
        assert(t == seq![e0] + tail);
        lemma_order_preservation(es.drop_first(), tail);
        let ms = es[0].1->Mapping_0;
        lemma_bindings_order(ms, e0.bindings);
        assert(entry_matches(es[0], e0));
        assert forall|i: int| 0 <= i < es.len() implies entry_matches(#[trigger] es[i], t[i]) by {
            if i == 0 {
                assert(t[0] == e0);
            } else {
                assert(es[i] == es.drop_first()[i - 1]);
                assert(t[i] == tail[i - 1]);
            }
        }
    }
}

} // verus!
