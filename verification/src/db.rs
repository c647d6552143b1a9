//! The database of resolved documents: each document is read, its endpoint
//! entries are resolved against the entry, the fragment it refers to and the
//! global defaults, and the result is entered in the list of documents, the
//! endpoint table and the dependency index.

use vstd::prelude::*;
use crate::codec::{parse_value, parsed};
use crate::fields::{
    bool_field, field_text, get_api_field_bool_value, get_api_field_string_value, string_field,
    text_of,
};
use crate::index::{noted, ApiData, ApiDataModel, DependencyIndex, EndpointTable};
use crate::merge::{dependencies, merge_with, merged, resolver_of, Resolved, Resolver};
use crate::reference::{sources_model, SourceFile};
use crate::repair::{fix_json, repaired};
use crate::resolve::{document_resolver, probing_resolver, DocumentResolver, ProbingResolver};
use crate::text::{chars_of, contains, ends_with, has_part, has_suffix, same_text, texts};
use crate::value::{field, lemma_array_view, Json, JsonNumber, StructuredValue};

verus! {

/// The settings of a project.
#[derive(Debug, PartialEq, Eq)]
pub struct BasicData {
    pub read_me: String,
    pub project_name: String,
    pub project_desc: String,
    pub global_value: StructuredValue,
}

/// A document: its name, description and place in the order of documents,
/// the path it was read from, and its endpoints.
#[derive(Debug, PartialEq, Eq)]
pub struct ApiDoc {
    pub name: String,
    pub desc: String,
    pub order: i64,
    pub filename: String,
    pub apis: Vec<ApiData>,
}

/// The model of an [`ApiDoc`].
pub struct ApiDocModel {
    pub name: Seq<char>,
    pub desc: Seq<char>,
    pub order: i64,
    pub filename: Seq<char>,
    pub apis: Seq<ApiDataModel>,
}

/// The models of a list of endpoints.
pub open spec fn apis_model(apis: Vec<ApiData>) -> Seq<ApiDataModel> {
    Seq::new(apis@.len(), |i: int| apis@[i]@)
}

impl View for ApiDoc {
    type V = ApiDocModel;

    open spec fn view(&self) -> ApiDocModel {
        ApiDocModel {
            name: self.name@,
            desc: self.desc@,
            order: self.order,
            filename: self.filename@,
            apis: apis_model(self.apis),
        }
    }
}

/// The models of a list of documents.
pub open spec fn docs_model(docs: Vec<ApiDoc>) -> Seq<ApiDocModel> {
    Seq::new(docs@.len(), |i: int| docs@[i]@)
}

/// Why a document was not taken in.
#[derive(Debug, PartialEq, Eq, Clone, Copy)]
pub enum DocumentError {
    /// The text is no JSON document.
    Unparsable,
    /// The root of the document is no object.
    NotAnObject,
    /// The member `order` of the document is no integer.
    OrderNotInteger,
}

/// What stands for the resolved documents.
#[derive(Debug, PartialEq, Eq)]
pub struct Database {
    pub basic_data: BasicData,
    /// The documents, in the order in which they were found.
    pub api_docs: Vec<ApiDoc>,
    pub api_data: EndpointTable,
    pub fileindex_data: DependencyIndex,
}

/// A path is that of a document: it ends in `.json`, is not the settings
/// file, and lies under no `_data/` directory.
pub open spec fn is_document_path(path: Seq<char>) -> bool {
    ends_with(path, ".json"@) && !ends_with(path, "_settings.json"@) && !contains(path, "_data/"@)
}

/// The reference of an endpoint entry: the text of its member `$ref`.
pub open spec fn entry_reference(entry: Json) -> Option<Seq<char>> {
    match field(entry, "$ref"@) {
        Some(Json::String(target)) => Some(target),
        _ => None,
    }
}

/// The fragment that an endpoint entry refers to; `null` where it refers to
/// none or the reference gave none.
pub open spec fn entry_fragment(entry: Json, r: spec_fn(Seq<char>) -> Resolved) -> Json {
    match entry_reference(entry) {
        Some(target) => match r(target).1 {
            Some(fragment) => fragment,
            None => Json::Null,
        },
        None => Json::Null,
    }
}

/// The part `key` of an endpoint: that of the entry, else that of the
/// fragment it refers to, else `null`.
pub open spec fn part(entry: Json, referred: Json, key: Seq<char>) -> Json {
    match field(entry, key) {
        Some(v) => v,
        None => match field(referred, key) {
            Some(v) => v,
            None => Json::Null,
        },
    }
}

/// The endpoint that the entry `entry` of the document at `doc` describes.
pub open spec fn endpoint_of(
    entry: Json,
    doc: Seq<char>,
    globals: Json,
    r: spec_fn(Seq<char>) -> Resolved,
) -> ApiDataModel {
    let referred = entry_fragment(entry, r);
    ApiDataModel {
        name: string_field("name"@, doc, entry, referred, globals),
        desc: string_field("desc"@, Seq::empty(), entry, referred, globals),
        url: string_field("url"@, Seq::empty(), entry, referred, globals),
        method: string_field("method"@, "GET"@, entry, referred, globals),
        auth: bool_field("auth"@, false, entry, referred, globals),
        body_mode: string_field("body_mode"@, "json"@, entry, referred, globals),
        body: merged(part(entry, referred, "body"@), r),
        query: merged(part(entry, referred, "query"@), r),
        response: merged(part(entry, referred, "response"@), r),
        test_data: part(entry, referred, "test_data"@),
    }
}

/// The source files that the endpoint of `entry` depends on: that of the
/// reference of the entry, then those of its body, query and response.
pub open spec fn endpoint_dependencies(entry: Json, r: spec_fn(Seq<char>) -> Resolved) -> Seq<
    Seq<char>,
> {
    let referred = entry_fragment(entry, r);
    let own = match entry_reference(entry) {
        Some(target) => seq![r(target).0],
        None => Seq::empty(),
    };
    own + dependencies(part(entry, referred, "body"@), r) + dependencies(
        part(entry, referred, "query"@),
        r,
    ) + dependencies(part(entry, referred, "response"@), r)
}

/// The endpoint entries of a document: the items of its member `api`.
pub open spec fn entries_of(root: Json) -> Seq<Json> {
    match field(root, "api"@) {
        Some(Json::Array(items)) => items,
        _ => Seq::empty(),
    }
}

/// The place of a document in the order of documents: its member `order`,
/// 0 where it has none; `None` where the member is no integer.
pub open spec fn document_order(root: Json) -> Option<i64> {
    match field(root, "order"@) {
        None => Some(0i64),
        Some(Json::Number(JsonNumber::Int(order))) => Some(order),
        Some(_) => None,
    }
}

/// The name of a document: its member `name`, its path where it has none.
pub open spec fn document_name(root: Json, doc: Seq<char>) -> Seq<char> {
    match field(root, "name"@) {
        Some(v) => text_of(v),
        None => doc,
    }
}

/// The description of a document: its member `desc`, empty where it has
/// none.
pub open spec fn document_desc(root: Json) -> Seq<char> {
    match field(root, "desc"@) {
        Some(v) => text_of(v),
        None => Seq::empty(),
    }
}

/// The endpoints of the first `n` of `entries`.
pub open spec fn endpoints_upto(
    entries: Seq<Json>,
    doc: Seq<char>,
    globals: Json,
    r: spec_fn(Seq<char>) -> Resolved,
    n: nat,
) -> Seq<ApiDataModel>
    decreases n,
{
    if n == 0 || n > entries.len() {
        Seq::empty()
    } else {
        endpoints_upto(entries, doc, globals, r, (n - 1) as nat).push(
            endpoint_of(entries[n - 1], doc, globals, r),
        )
    }
}

/// The source files that the endpoints of the first `n` of `entries` depend
/// on.
pub open spec fn dependencies_upto(entries: Seq<Json>, r: spec_fn(Seq<char>) -> Resolved, n: nat) -> Seq<
    Seq<char>,
>
    decreases n,
{
    if n == 0 || n > entries.len() {
        Seq::empty()
    } else {
        dependencies_upto(entries, r, (n - 1) as nat) + endpoint_dependencies(entries[n - 1], r)
    }
}

/// The document with the root `root` at the path `doc`; `None` where its
/// member `order` is no integer.
pub open spec fn summary_of(
    root: Json,
    doc: Seq<char>,
    globals: Json,
    r: spec_fn(Seq<char>) -> Resolved,
) -> Option<ApiDocModel> {
    match document_order(root) {
        Some(order) => Some(
            ApiDocModel {
                name: document_name(root, doc),
                desc: document_desc(root),
                order,
                filename: doc,
                apis: endpoints_upto(entries_of(root), doc, globals, r, entries_of(root).len()),
            },
        ),
        None => None,
    }
}

/// The source files that the document with the root `root` depends on.
pub open spec fn summary_dependencies(root: Json, r: spec_fn(Seq<char>) -> Resolved) -> Seq<
    Seq<char>,
> {
    dependencies_upto(entries_of(root), r, entries_of(root).len())
}

/// A copy of the part `key` of an endpoint.
pub fn part_of(entry: &StructuredValue, referred: &StructuredValue, key: &str) -> (out:
    StructuredValue)
    ensures
        out@ == part(entry@, referred@, key@),
{
    match entry.get(key) {
        Some(v) => v.duplicate(),
        None => match referred.get(key) {
            Some(v) => v.duplicate(),
            None => StructuredValue::Null,
        },
    }
}

/// Resolves the endpoint entry `entry` of the document at `doc_file`. Gives
/// the source files that the endpoint depends on, and the endpoint.
pub fn build_endpoint<R: Resolver>(
    entry: &StructuredValue,
    doc_file: &str,
    global_value: &StructuredValue,
    resolver: &R,
) -> (out: (Vec<String>, ApiData))
    ensures
        texts(out.0@) == endpoint_dependencies(entry@, resolver_of(resolver)),
        out.1@ == endpoint_of(entry@, doc_file@, global_value@, resolver_of(resolver)),
{
    let ghost r = resolver_of(resolver);
    let mut deps: Vec<String> = Vec::new();
    let mut referred = StructuredValue::Null;
    let target = match entry.get("$ref") {
        Some(v) => v.as_str(),
        None => None,
    };
    if let Some(reference) = target {
        let (source, fragment) = resolver.resolve(reference.as_str());
        deps.push(source);
        if let Some(v) = fragment {
            referred = v;
        }
    }
    assert(referred@ == entry_fragment(entry@, r));
    let ghost own = texts(deps@);
    assert(own =~= match entry_reference(entry@) {
        Some(target) => seq![r(target).0],
        None => Seq::empty(),
    });
    let name = get_api_field_string_value(
        "name",
        doc_file.to_owned(),
        entry,
        &referred,
        global_value,
    );
    let desc = get_api_field_string_value("desc", String::new(), entry, &referred, global_value);
    let url = get_api_field_string_value("url", String::new(), entry, &referred, global_value);
    let method = get_api_field_string_value(
        "method",
        "GET".to_owned(),
        entry,
        &referred,
        global_value,
    );
    let body_mode = get_api_field_string_value(
        "body_mode",
        "json".to_owned(),
        entry,
        &referred,
        global_value,
    );
    let auth = get_api_field_bool_value("auth", false, entry, &referred, global_value);
    let (mut body_deps, body) = merge_with(&part_of(entry, &referred, "body"), resolver);
    let (mut query_deps, query) = merge_with(&part_of(entry, &referred, "query"), resolver);
    let (mut response_deps, response) = merge_with(
        &part_of(entry, &referred, "response"),
        resolver,
    );
    let test_data = part_of(entry, &referred, "test_data");
    let ghost b = texts(body_deps@);
    let ghost q = texts(query_deps@);
    let ghost p = texts(response_deps@);
    deps.append(&mut body_deps);
    assert(texts(deps@) =~= own + b);
    deps.append(&mut query_deps);
    assert(texts(deps@) =~= own + b + q);
    deps.append(&mut response_deps);
    assert(texts(deps@) =~= own + b + q + p);
    (deps, ApiData { name, desc, url, method, auth, body_mode, body, query, response, test_data })
}

/// Resolves the document with the root `root` at the path `doc_file`. Gives
/// the source files that the document depends on, and the document.
pub fn summarize<R: Resolver>(
    root: &StructuredValue,
    doc_file: &str,
    global_value: &StructuredValue,
    resolver: &R,
) -> (out: Result<(Vec<String>, ApiDoc), DocumentError>)
    ensures
        match out {
            Ok(found) => root@ is Object && summary_of(
                root@,
                doc_file@,
                global_value@,
                resolver_of(resolver),
            ) == Some(found.1@) && texts(found.0@) == summary_dependencies(
                root@,
                resolver_of(resolver),
            ),
            Err(DocumentError::NotAnObject) => !(root@ is Object),
            Err(DocumentError::OrderNotInteger) => root@ is Object && document_order(root@) is None,
            Err(DocumentError::Unparsable) => false,
        },
{
    let ghost r = resolver_of(resolver);
    match root {
        StructuredValue::Object(_) => {},
        _ => {
            return Err(DocumentError::NotAnObject);
        },
    }
    let order: i64 = match root.get("order") {
        None => 0,
        Some(v) => match v.as_i64() {
            Some(order) => order,
            None => {
                return Err(DocumentError::OrderNotInteger);
            },
        },
    };
    let name = match root.get("name") {
        Some(v) => field_text(v),
        None => doc_file.to_owned(),
    };
    let desc = match root.get("desc") {
        Some(v) => field_text(v),
        None => String::new(),
    };
    let mut deps: Vec<String> = Vec::new();
    let mut apis: Vec<ApiData> = Vec::new();
    let ghost entries = entries_of(root@);
    assert(texts(deps@) =~= dependencies_upto(entries, r, 0));
    assert(apis_model(apis) =~= endpoints_upto(entries, doc_file@, global_value@, r, 0));
    if let Some(StructuredValue::Array(items)) = root.get("api") {
        proof {
            lemma_array_view(*items);
        }
        let mut i: usize = 0;
        while i < items.len()
            invariant
                i <= items.len(),
                r == resolver_of(resolver),
                entries.len() == items@.len(),
                forall|j: int| 0 <= j < items@.len() ==> entries[j] == #[trigger] items@[j]@,
                texts(deps@) == dependencies_upto(entries, r, i as nat),
                apis_model(apis) == endpoints_upto(entries, doc_file@, global_value@, r, i as nat),
            decreases items.len() - i,
        {
            assert(entries[i as int] == items@[i as int]@);
            let (mut more, endpoint) = build_endpoint(&items[i], doc_file, global_value, resolver);
            let ghost before_deps = texts(deps@);
            let ghost before_apis = apis_model(apis);
            let ghost added = texts(more@);
            let ghost model = endpoint@;
            deps.append(&mut more);
            apis.push(endpoint);
            assert(texts(deps@) =~= before_deps + added);
            assert(apis_model(apis) =~= before_apis.push(model));
            i += 1;
        }
    }
    Ok((deps, ApiDoc { name, desc, order, filename: doc_file.to_owned(), apis }))
}

/// Whether `path` is the path of a document.
pub fn is_document(path: &str) -> (out: bool)
    ensures
        out == is_document_path(path@),
{
    let chars = chars_of(path);
    has_suffix(&chars, &chars_of(".json")) && !has_suffix(&chars, &chars_of("_settings.json"))
        && !has_part(&chars, &chars_of("_data/"))
}

/// What became of a file that was offered as a document.
pub enum Outcome {
    /// Its path is not that of a document.
    Skipped,
    /// It is malformed.
    Failed(DocumentError),
    /// It was resolved: the document, and the source files it depends on.
    Taken(ApiDocModel, Seq<Seq<char>>),
}

/// What becomes of the file at `doc` with the text `text`, resolved against
/// the global defaults `globals` and the source files `sources`.
pub open spec fn outcome_of(
    doc: Seq<char>,
    text: Seq<char>,
    globals: Json,
    sources: Seq<(Seq<char>, Seq<char>)>,
) -> Outcome {
    if !is_document_path(doc) {
        Outcome::Skipped
    } else {
        match parsed(repaired(text)) {
            None => Outcome::Failed(DocumentError::Unparsable),
            Some(root) => if !(root is Object) {
                Outcome::Failed(DocumentError::NotAnObject)
            } else {
                let r = document_resolver(root, doc, sources);
                match summary_of(root, doc, globals, r) {
                    None => Outcome::Failed(DocumentError::OrderNotInteger),
                    Some(summary) => Outcome::Taken(summary, summary_dependencies(root, r)),
                }
            },
        }
    }
}

/// The key of an endpoint in the endpoint table: its URL and its method.
pub open spec fn route_of(endpoint: ApiDataModel) -> (Seq<char>, Seq<char>) {
    (endpoint.url, endpoint.method)
}

/// `table` after the first `n` of `apis` were entered, one after the other.
pub open spec fn table_with(
    table: Map<(Seq<char>, Seq<char>), ApiDataModel>,
    apis: Seq<ApiDataModel>,
    n: nat,
) -> Map<(Seq<char>, Seq<char>), ApiDataModel>
    decreases n,
{
    if n == 0 || n > apis.len() {
        table
    } else {
        table_with(table, apis, (n - 1) as nat).insert(route_of(apis[n - 1]), apis[n - 1])
    }
}

/// `index` after `document` was noted as depending on the first `n` of
/// `files`.
pub open spec fn index_with(
    index: Set<(Seq<char>, Seq<char>)>,
    files: Seq<Seq<char>>,
    document: Seq<char>,
    n: nat,
) -> Set<(Seq<char>, Seq<char>)>
    decreases n,
{
    if n == 0 || n > files.len() {
        index
    } else {
        noted(index_with(index, files, document, (n - 1) as nat), files[n - 1], document)
    }
}

/// The index, from `from` on, of the first of `docs` read from `filename`;
/// the number of documents where there is none.
pub open spec fn doc_position_from(docs: Seq<ApiDocModel>, filename: Seq<char>, from: int) -> int
    decreases docs.len() - from,
{
    if from < 0 || from >= docs.len() {
        docs.len() as int
    } else if docs[from].filename == filename {
        from
    } else {
        doc_position_from(docs, filename, from + 1)
    }
}

/// `docs` with `doc` entered: in place of the first document read from the
/// same path, at the end where there is none.
pub open spec fn docs_with(docs: Seq<ApiDocModel>, doc: ApiDocModel) -> Seq<ApiDocModel> {
    let at = doc_position_from(docs, doc.filename, 0);
    if at < docs.len() {
        docs.update(at, doc)
    } else {
        docs.push(doc)
    }
}

/// The model of the documents and the two indices of a database.
pub struct DatabaseModel {
    pub docs: Seq<ApiDocModel>,
    pub table: Map<(Seq<char>, Seq<char>), ApiDataModel>,
    pub index: Set<(Seq<char>, Seq<char>)>,
}

/// The database before any document was entered.
pub open spec fn empty_database() -> DatabaseModel {
    DatabaseModel { docs: Seq::empty(), table: Map::empty(), index: Set::empty() }
}

/// `state` after a file with the outcome `outcome` was offered: a document
/// that was taken is entered in the list of documents, its endpoints in the
/// endpoint table, and its dependencies in the dependency index; any other
/// outcome leaves the state.
pub open spec fn absorbed(state: DatabaseModel, outcome: Outcome) -> DatabaseModel {
    match outcome {
        Outcome::Taken(summary, files) => DatabaseModel {
            docs: docs_with(state.docs, summary),
            table: table_with(state.table, summary.apis, summary.apis.len()),
            index: index_with(state.index, files, summary.filename, files.len()),
        },
        _ => state,
    }
}

/// `state` after the first `n` of `documents` were offered, in order, each
/// resolved against `sources`.
pub open spec fn pass_from(
    state: DatabaseModel,
    documents: Seq<(Seq<char>, Seq<char>)>,
    globals: Json,
    sources: Seq<(Seq<char>, Seq<char>)>,
    n: nat,
) -> DatabaseModel
    decreases n,
{
    if n == 0 || n > documents.len() {
        state
    } else {
        absorbed(
            pass_from(state, documents, globals, sources, (n - 1) as nat),
            outcome_of(documents[n - 1].0, documents[n - 1].1, globals, sources),
        )
    }
}

/// The model of a database with the documents `docs` and the indices
/// `table` and `index`.
pub open spec fn state_of(docs: Vec<ApiDoc>, table: EndpointTable, index: DependencyIndex) -> DatabaseModel {
    DatabaseModel { docs: docs_model(docs), table: table@, index: index@ }
}

/// What is reported of a file with the outcome `outcome`.
pub open spec fn report_of(outcome: Outcome) -> Result<bool, DocumentError> {
    match outcome {
        Outcome::Skipped => Ok(false),
        Outcome::Failed(reason) => Err(reason),
        Outcome::Taken(_, _) => Ok(true),
    }
}

/// Enters `doc` in `docs`: in place of the first document read from the same
/// path, at the end where there is none.
pub fn enter_document(docs: &mut Vec<ApiDoc>, doc: ApiDoc)
    ensures
        docs_model(*final(docs)) == docs_with(docs_model(*old(docs)), doc@),
{
    let ghost before = docs_model(*docs);
    let ghost model = doc@;
    let mut i: usize = 0;
    while i < docs.len() && !same_text(docs[i].filename.as_str(), doc.filename.as_str())
        invariant
            i <= docs.len(),
            docs_model(*docs) == before,
            model == doc@,
            doc_position_from(before, model.filename, 0) == doc_position_from(
                before,
                model.filename,
                i as int,
            ),
        decreases docs.len() - i,
    {
        assert(before[i as int] == docs@[i as int]@);
        i += 1;
    }
    if i < docs.len() {
        assert(before[i as int] == docs@[i as int]@);
        docs.set(i, doc);
        assert(docs_model(*docs) =~= before.update(i as int, model));
    } else {
        docs.push(doc);
        assert(docs_model(*docs) =~= before.push(model));
    }
}

impl Database {
    /// The documents and the two indices of this database.
    pub open spec fn model(&self) -> DatabaseModel {
        state_of(self.api_docs, self.api_data, self.fileindex_data)
    }

    /// The database of a project without documents.
    pub fn new(basic_data: BasicData) -> (out: Database)
        ensures
            out.basic_data == basic_data,
            out.model() == empty_database(),
            out.fileindex_data.wf(),
    {
        let out = Database {
            basic_data,
            api_docs: Vec::new(),
            api_data: EndpointTable::new(),
            fileindex_data: DependencyIndex::new(),
        };
        assert(docs_model(out.api_docs) =~= Seq::<ApiDocModel>::empty());
        out
    }

    /// Builds the database of a project: offers each of `documents`, in
    /// order, and takes in those that are documents and well formed,
    /// resolved against `sources`.
    pub fn load(basic_data: BasicData, documents: &Vec<SourceFile>, sources: &Vec<SourceFile>) -> (out:
        Database)
        ensures
            out.basic_data == basic_data,
            out.model() == pass_from(
                empty_database(),
                sources_model(*documents),
                basic_data.global_value@,
                sources_model(*sources),
                documents@.len(),
            ),
            out.fileindex_data.wf(),
    {
        let mut api_docs: Vec<ApiDoc> = Vec::new();
        let mut api_data = EndpointTable::new();
        let mut fileindex_data = DependencyIndex::new();
        assert(docs_model(api_docs) =~= Seq::<ApiDocModel>::empty());
        let ghost offered = sources_model(*documents);
        let ghost globals = basic_data.global_value@;
        let ghost read = sources_model(*sources);
        let mut i: usize = 0;
        while i < documents.len()
            invariant
                i <= documents.len(),
                offered == sources_model(*documents),
                globals == basic_data.global_value@,
                read == sources_model(*sources),
                fileindex_data.wf(),
                state_of(api_docs, api_data, fileindex_data) == pass_from(
                    empty_database(),
                    offered,
                    globals,
                    read,
                    i as nat,
                ),
            decreases documents.len() - i,
        {
            let _ = Database::load_a_api_json_file(
                documents[i].path.as_str(),
                documents[i].text.as_str(),
                &basic_data,
                sources,
                &mut api_data,
                &mut api_docs,
                &mut fileindex_data,
            );
            i += 1;
        }
        Database { basic_data, api_docs, api_data, fileindex_data }
    }

    /// Offers the file at `doc_file` with the text `text` as a document.
    /// A file whose path is not that of a document is passed over, and
    /// `Ok(false)` says so. A malformed document is refused with the reason.
    /// In both cases nothing changes. Any other is resolved against the
    /// global defaults and `sources`, entered in `api_docs`, its endpoints in
    /// `api_data` and its dependencies in `fileindex_data`, and `Ok(true)`
    /// says so.
    pub fn load_a_api_json_file(
        doc_file: &str,
        text: &str,
        basic_data: &BasicData,
        sources: &Vec<SourceFile>,
        api_data: &mut EndpointTable,
        api_docs: &mut Vec<ApiDoc>,
        fileindex_data: &mut DependencyIndex,
    ) -> (out: Result<bool, DocumentError>)
        ensures
            state_of(*final(api_docs), *final(api_data), *final(fileindex_data)) == absorbed(
                state_of(*old(api_docs), *old(api_data), *old(fileindex_data)),
                outcome_of(doc_file@, text@, basic_data.global_value@, sources_model(*sources)),
            ),
            out == report_of(
                outcome_of(doc_file@, text@, basic_data.global_value@, sources_model(*sources)),
            ),
            old(fileindex_data).wf() ==> final(fileindex_data).wf(),
    {
        if !is_document(doc_file) {
            return Ok(false);
        }
        let fixed = fix_json(text.to_owned());
        let root = match parse_value(fixed.as_str()) {
            Some(root) => root,
            None => {
                return Err(DocumentError::Unparsable);
            },
        };
        let resolver = DocumentResolver { root: &root, doc_file, sources };
        let ghost r = document_resolver(root@, doc_file@, sources_model(*sources));
        assert(resolver_of(&resolver) =~= r);
        let (deps, doc) = match summarize(&root, doc_file, &basic_data.global_value, &resolver) {
            Ok(found) => found,
            Err(reason) => {
                return Err(reason);
            },
        };
        let ghost summary = doc@;
        let ghost files = texts(deps@);
        let ghost table = api_data@;
        let ghost index = fileindex_data@;
        let mut i: usize = 0;
        while i < doc.apis.len()
            invariant
                i <= doc.apis.len(),
                doc@ == summary,
                api_data@ == table_with(table, summary.apis, i as nat),
            decreases doc.apis.len() - i,
        {
            let endpoint = doc.apis[i].duplicate();
            assert(summary.apis[i as int] == doc.apis@[i as int]@);
            api_data.insert(endpoint.url.clone(), endpoint.method.clone(), endpoint);
            i += 1;
        }
        let mut k: usize = 0;
        while k < deps.len()
            invariant
                k <= deps.len(),
                files == texts(deps@),
                summary.filename == doc_file@,
                fileindex_data@ == index_with(index, files, summary.filename, k as nat),
                old(fileindex_data).wf() ==> fileindex_data.wf(),
            decreases deps.len() - k,
        {
            fileindex_data.insert(deps[k].clone(), doc_file.to_owned());
            k += 1;
        }
        enter_document(api_docs, doc);
        Ok(true)
    }
}

/// The paths of the source files that resolving the file at `doc` with the
/// text `text` asks for, given the source files `sources` that were read so
/// far: one for each reference that is met, in order. A file that is passed
/// over or refused asks for none.
pub open spec fn consulted(
    doc: Seq<char>,
    text: Seq<char>,
    globals: Json,
    sources: Seq<(Seq<char>, Seq<char>)>,
) -> Seq<Seq<char>> {
    if !is_document_path(doc) {
        Seq::empty()
    } else {
        match parsed(repaired(text)) {
            None => Seq::empty(),
            Some(root) => if !(root is Object) || document_order(root) is None {
                Seq::empty()
            } else {
                summary_dependencies(root, probing_resolver(root, doc, sources))
            },
        }
    }
}

/// The paths of the source files that resolving the file at `doc_file` asks
/// for, given the source files that were read so far. A caller reads those
/// that it has not tried yet, adds them to `sources`, and asks again, until
/// no new path comes: a fragment that was read may refer to further files.
pub fn consulted_sources(
    doc_file: &str,
    text: &str,
    basic_data: &BasicData,
    sources: &Vec<SourceFile>,
) -> (out: Vec<String>)
    ensures
        texts(out@) == consulted(
            doc_file@,
            text@,
            basic_data.global_value@,
            sources_model(*sources),
        ),
{
    let none: Vec<String> = Vec::new();
    assert(texts(none@) =~= Seq::<Seq<char>>::empty());
    if !is_document(doc_file) {
        return none;
    }
    let fixed = fix_json(text.to_owned());
    let root = match parse_value(fixed.as_str()) {
        Some(root) => root,
        None => {
            return none;
        },
    };
    let resolver = ProbingResolver { root: &root, doc_file, sources };
    assert(resolver_of(&resolver) =~= probing_resolver(
        root@,
        doc_file@,
        sources_model(*sources),
    ));
    match summarize(&root, doc_file, &basic_data.global_value, &resolver) {
        Ok(found) => found.0,
        Err(_) => none,
    }
}

/// The document at `first` comes before the document at `second` in the order
/// of presentation: its member `order` is less, or is the same and the
/// document was found earlier.
pub open spec fn precedes(docs: Seq<ApiDoc>, first: int, second: int) -> bool {
    docs[first].order < docs[second].order || (docs[first].order == docs[second].order && first
        < second)
}

/// The index `i` stands in the list `out`.
pub open spec fn holds_index(out: Seq<usize>, i: int) -> bool {
    exists|a: int| 0 <= a < out.len() && out[a] == i
}

/// The indices of `docs` in the order of presentation: by the member `order`
/// of the documents, and among documents with the same order, by the order
/// in which they were found.
pub fn documents_in_order(docs: &Vec<ApiDoc>) -> (out: Vec<usize>)
    ensures
        out@.len() == docs@.len(),
        forall|a: int| 0 <= a < out@.len() ==> 0 <= #[trigger] out@[a] < docs@.len(),
        forall|a: int, b: int|
            0 <= a < b < out@.len() ==> precedes(docs@, out@[a] as int, out@[b] as int),
        forall|i: int| 0 <= i < docs@.len() ==> #[trigger] holds_index(out@, i),
{
    let mut out: Vec<usize> = Vec::new();
    let mut i: usize = 0;
    while i < docs.len()
        invariant
            i <= docs.len(),
            out@.len() == i,
            forall|a: int| 0 <= a < out@.len() ==> 0 <= #[trigger] out@[a] < i,
            forall|a: int, b: int|
                0 <= a < b < out@.len() ==> precedes(docs@, out@[a] as int, out@[b] as int),
            forall|k: int| 0 <= k < i ==> #[trigger] holds_index(out@, k),
        decreases docs.len() - i,
    {
        let mut at: usize = 0;
        while at < out.len() && docs[out[at]].order <= docs[i].order
            invariant
                at <= out@.len(),
                out@.len() == i,
                i < docs.len(),
                forall|a: int| 0 <= a < out@.len() ==> 0 <= #[trigger] out@[a] < i,
                forall|a: int| 0 <= a < at ==> docs@[out@[a] as int].order <= docs@[i as int].order,
            decreases out@.len() - at,
        {
            at += 1;
        }
        let ghost before = out@;
        out.insert(at, i);
        proof {
            assert forall|a: int, b: int| 0 <= a < b < out@.len() implies precedes(
                docs@,
                out@[a] as int,
                out@[b] as int,
            ) by {
                if b < at {
                    assert(out@[a] == before[a] && out@[b] == before[b]);
                } else if b == at {
                    assert(out@[a] == before[a]);
                } else if a < at {
                    assert(out@[a] == before[a] && out@[b] == before[b - 1]);
                } else if a == at {
                    assert(out@[b] == before[b - 1]);
                    assert(at < before.len());
                    if at < b - 1 {
                        assert(precedes(docs@, before[at as int] as int, before[b - 1] as int));
                    }
                } else {
                    assert(out@[a] == before[a - 1] && out@[b] == before[b - 1]);
                }
            }
            assert forall|k: int| 0 <= k < i + 1 implies #[trigger] holds_index(out@, k) by {
                if k == i {
                    assert(out@[at as int] == k);
                } else {
                    assert(holds_index(before, k));
                    let a = choose|a: int| 0 <= a < before.len() && before[a] == k;
                    if a < at {
                        assert(out@[a] == k);
                    } else {
                        assert(out@[a + 1] == k);
                    }
                }
            }
            assert forall|a: int| 0 <= a < out@.len() implies 0 <= #[trigger] out@[a] < i + 1 by {
                if a < at {
                    assert(out@[a] == before[a]);
                } else if a > at {
                    assert(out@[a] == before[a - 1]);
                }
            }
        }
        i += 1;
    }
    out
}

/// The name that a project has where its settings give none.
pub open spec fn default_project_name() -> Seq<char> {
    "Panda api docs"@
}

/// The settings that a settings text holds: the document read from it; the
/// empty object where there is no text or it is no document.
pub open spec fn settings_of(settings: Option<Seq<char>>) -> Json {
    match settings {
        Some(text) => match parsed(repaired(text)) {
            Some(root) => root,
            None => Json::Object(Seq::empty()),
        },
        None => Json::Object(Seq::empty()),
    }
}

/// The text of the member `key` of `settings`; `default` where there is none.
pub open spec fn setting_text(settings: Json, key: Seq<char>, default: Seq<char>) -> Seq<char> {
    match field(settings, key) {
        Some(v) => text_of(v),
        None => default,
    }
}

/// The global defaults of `settings`: its member `global`, `null` where it
/// has none.
pub open spec fn global_of(settings: Json) -> Json {
    match field(settings, "global"@) {
        Some(v) => v,
        None => Json::Null,
    }
}

/// The settings of a project, from the text of its read-me file and the text
/// of its settings file, each `None` where the file could not be read.
pub fn load_basic_data(read_me: Option<String>, settings: Option<String>) -> (out: BasicData)
    ensures
        out.read_me@ == match read_me {
            Some(text) => text@,
            None => default_project_name(),
        },
        out.project_name@ == setting_text(
            settings_of(
                match settings {
                    Some(text) => Some(text@),
                    None => None,
                },
            ),
            "project_name"@,
            default_project_name(),
        ),
        out.project_desc@ == setting_text(
            settings_of(
                match settings {
                    Some(text) => Some(text@),
                    None => None,
                },
            ),
            "project_desc"@,
            Seq::empty(),
        ),
        out.global_value@ == global_of(
            settings_of(
                match settings {
                    Some(text) => Some(text@),
                    None => None,
                },
            ),
        ),
{
    let read_me = match read_me {
        Some(text) => text,
        None => "Panda api docs".to_owned(),
    };
    let found = match settings {
        Some(text) => parse_value(fix_json(text).as_str()),
        None => None,
    };
    match found {
        Some(root) => {
            let project_name = match root.get("project_name") {
                Some(v) => field_text(v),
                None => "Panda api docs".to_owned(),
            };
            let project_desc = match root.get("project_desc") {
                Some(v) => field_text(v),
                None => String::new(),
            };
            let global_value = match root.get("global") {
                Some(v) => v.duplicate(),
                None => StructuredValue::Null,
            };
            BasicData { read_me, project_name, project_desc, global_value }
        },
        None => {
            BasicData {
                read_me,
                project_name: "Panda api docs".to_owned(),
                project_desc: String::new(),
                global_value: StructuredValue::Null,
            }
        },
    }
}

/// Last write wins: after endpoints were entered one after the other, the
/// table answers a URL and method with the last endpoint that was entered for
/// them, whatever it held before.
pub proof fn law_last_endpoint_wins(
    table: Map<(Seq<char>, Seq<char>), ApiDataModel>,
    apis: Seq<ApiDataModel>,
    n: nat,
    at: int,
)
    requires
        0 <= at < n <= apis.len(),
        forall|j: int| at < j < n ==> route_of(#[trigger] apis[j]) != route_of(apis[at]),
    ensures
        table_with(table, apis, n).contains_key(route_of(apis[at])),
        table_with(table, apis, n)[route_of(apis[at])] == apis[at],
    decreases n,
{
    if n - 1 > at {
        law_last_endpoint_wins(table, apis, (n - 1) as nat, at);
        assert(route_of(apis[n - 1]) != route_of(apis[at]));
    }
}

/// Last write wins between documents: where a document is taken after
/// another file was offered, the table answers a URL and method that the
/// later document declares with the last endpoint that this document
/// declares for them.
pub proof fn law_later_document_wins(
    state: DatabaseModel,
    earlier: Outcome,
    later: ApiDocModel,
    files: Seq<Seq<char>>,
    at: int,
)
    requires
        0 <= at < later.apis.len(),
        forall|j: int|
            at < j < later.apis.len() ==> route_of(#[trigger] later.apis[j]) != route_of(
                later.apis[at],
            ),
    ensures
        absorbed(absorbed(state, earlier), Outcome::Taken(later, files)).table[route_of(
            later.apis[at],
        )] == later.apis[at],
{
    law_last_endpoint_wins(absorbed(state, earlier).table, later.apis, later.apis.len(), at);
}

/// Entering endpoints in a table gives the table overlaid with what the same
/// endpoints give in an empty table.
proof fn lemma_table_with_union(
    table: Map<(Seq<char>, Seq<char>), ApiDataModel>,
    apis: Seq<ApiDataModel>,
    n: nat,
)
    requires
        n <= apis.len(),
    ensures
        table_with(table, apis, n) == table.union_prefer_right(table_with(Map::empty(), apis, n)),
    decreases n,
{
    if n > 0 {
        lemma_table_with_union(table, apis, (n - 1) as nat);
    }
    assert(table_with(table, apis, n) =~= table.union_prefer_right(
        table_with(Map::empty(), apis, n),
    ));
}

/// Noting dependencies in an index gives the index joined with what the same
/// dependencies give in an empty index.
proof fn lemma_index_with_union(
    index: Set<(Seq<char>, Seq<char>)>,
    files: Seq<Seq<char>>,
    document: Seq<char>,
    n: nat,
)
    requires
        n <= files.len(),
    ensures
        index_with(index, files, document, n) == index.union(
            index_with(Set::empty(), files, document, n),
        ),
    decreases n,
{
    if n > 0 {
        lemma_index_with_union(index, files, document, (n - 1) as nat);
    }
    assert(index_with(index, files, document, n) =~= index.union(
        index_with(Set::empty(), files, document, n),
    ));
}

/// A pass from a state gives, for the two indices, the state joined with what
/// the same pass gives from the empty database.
proof fn lemma_pass_union(
    state: DatabaseModel,
    documents: Seq<(Seq<char>, Seq<char>)>,
    globals: Json,
    sources: Seq<(Seq<char>, Seq<char>)>,
    n: nat,
)
    requires
        n <= documents.len(),
    ensures
        pass_from(state, documents, globals, sources, n).table == state.table.union_prefer_right(
            pass_from(empty_database(), documents, globals, sources, n).table,
        ),
        pass_from(state, documents, globals, sources, n).index == state.index.union(
            pass_from(empty_database(), documents, globals, sources, n).index,
        ),
    decreases n,
{
    let here = pass_from(state, documents, globals, sources, n);
    let alone = pass_from(empty_database(), documents, globals, sources, n);
    if n > 0 {
        let before = pass_from(state, documents, globals, sources, (n - 1) as nat);
        let before_alone = pass_from(empty_database(), documents, globals, sources, (n - 1) as nat);
        lemma_pass_union(state, documents, globals, sources, (n - 1) as nat);
        let outcome = outcome_of(documents[n - 1].0, documents[n - 1].1, globals, sources);
        if let Outcome::Taken(summary, files) = outcome {
            lemma_table_with_union(before.table, summary.apis, summary.apis.len());
            lemma_table_with_union(before_alone.table, summary.apis, summary.apis.len());
            lemma_index_with_union(before.index, files, summary.filename, files.len());
            lemma_index_with_union(before_alone.index, files, summary.filename, files.len());
        }
    }
    assert(here.table =~= state.table.union_prefer_right(alone.table));
    assert(here.index =~= state.index.union(alone.index));
}

/// A second pass changes nothing: offering the same documents, against the
/// same sources, to the database that a first pass over them built leaves the
/// endpoint table and the dependency index as the first pass left them.
pub proof fn law_second_pass_changes_nothing(
    documents: Seq<(Seq<char>, Seq<char>)>,
    globals: Json,
    sources: Seq<(Seq<char>, Seq<char>)>,
)
    ensures
        pass_from(
            pass_from(empty_database(), documents, globals, sources, documents.len()),
            documents,
            globals,
            sources,
            documents.len(),
        ).table == pass_from(empty_database(), documents, globals, sources, documents.len()).table,
        pass_from(
            pass_from(empty_database(), documents, globals, sources, documents.len()),
            documents,
            globals,
            sources,
            documents.len(),
        ).index == pass_from(empty_database(), documents, globals, sources, documents.len()).index,
{
    let once = pass_from(empty_database(), documents, globals, sources, documents.len());
    let twice = pass_from(once, documents, globals, sources, documents.len());
    lemma_pass_union(once, documents, globals, sources, documents.len());
    assert(twice.table =~= once.table);
    assert(twice.index =~= once.index);
}

/// Dependencies are only ever added: what the index held before a file was
/// offered, it holds after.
pub proof fn law_dependencies_accumulate(state: DatabaseModel, outcome: Outcome)
    ensures
        state.index.subset_of(absorbed(state, outcome).index),
{
    if let Outcome::Taken(summary, files) = outcome {
        lemma_index_with_union(state.index, files, summary.filename, files.len());
    }
}

} // verus!
