//! The two indices over the resolved documents: which documents depend on a
//! source file, and which endpoint answers a URL and a method.

use vstd::prelude::*;
use crate::text::{same_text, texts};
use crate::value::{key_position, lemma_key_position, lemma_key_position_is, Json, StructuredValue};

verus! {

/// One resolved endpoint.
#[derive(Debug, PartialEq, Eq)]
pub struct ApiData {
    pub name: String,
    pub desc: String,
    pub url: String,
    pub method: String,
    pub auth: bool,
    pub body_mode: String,
    pub body: StructuredValue,
    pub query: StructuredValue,
    pub response: StructuredValue,
    pub test_data: StructuredValue,
}

/// The model of an [`ApiData`].
pub struct ApiDataModel {
    pub name: Seq<char>,
    pub desc: Seq<char>,
    pub url: Seq<char>,
    pub method: Seq<char>,
    pub auth: bool,
    pub body_mode: Seq<char>,
    pub body: Json,
    pub query: Json,
    pub response: Json,
    pub test_data: Json,
}

impl View for ApiData {
    type V = ApiDataModel;

    open spec fn view(&self) -> ApiDataModel {
        ApiDataModel {
            name: self.name@,
            desc: self.desc@,
            url: self.url@,
            method: self.method@,
            auth: self.auth,
            body_mode: self.body_mode@,
            body: self.body@,
            query: self.query@,
            response: self.response@,
            test_data: self.test_data@,
        }
    }
}

impl ApiData {
    /// A copy of this endpoint.
    pub fn duplicate(&self) -> (out: ApiData)
        ensures
            out@ == self@,
    {
        ApiData {
            name: self.name.clone(),
            desc: self.desc.clone(),
            url: self.url.clone(),
            method: self.method.clone(),
            auth: self.auth,
            body_mode: self.body_mode.clone(),
            body: self.body.duplicate(),
            query: self.query.duplicate(),
            response: self.response.duplicate(),
            test_data: self.test_data.duplicate(),
        }
    }
}

/// A source file and a document that depends on it.
#[derive(Debug, PartialEq, Eq)]
pub struct Dependency {
    pub file: String,
    pub document: String,
}

/// The documents of those of the first `n` of `pairs` whose file is `file`.
pub open spec fn documents_upto(pairs: Seq<Dependency>, file: Seq<char>, n: nat) -> Seq<Seq<char>>
    decreases n,
{
    if n == 0 || n > pairs.len() {
        Seq::empty()
    } else {
        let so_far = documents_upto(pairs, file, (n - 1) as nat);
        if pairs[n - 1].file@ == file {
            so_far.push(pairs[n - 1].document@)
        } else {
            so_far
        }
    }
}

/// Which documents depend on which source file. It holds no pair with an
/// empty file, and none of a file with itself.
#[derive(Debug, PartialEq, Eq)]
pub struct DependencyIndex {
    pub pairs: Vec<Dependency>,
}

/// A set of pairs with the pair of `file` and `document` noted in it: the
/// pair is added unless the file is empty or is the document itself.
pub open spec fn noted(
    pairs: Set<(Seq<char>, Seq<char>)>,
    file: Seq<char>,
    document: Seq<char>,
) -> Set<(Seq<char>, Seq<char>)> {
    if file.len() == 0 || file == document {
        pairs
    } else {
        pairs.insert((file, document))
    }
}

impl View for DependencyIndex {
    type V = Set<(Seq<char>, Seq<char>)>;

    /// The pairs of a source file and a document that depends on it.
    open spec fn view(&self) -> Set<(Seq<char>, Seq<char>)> {
        Set::new(
            |p: (Seq<char>, Seq<char>)|
                exists|i: int|
                    0 <= i < self.pairs@.len() && (#[trigger] self.pairs@[i]).file@ == p.0
                        && self.pairs@[i].document@ == p.1,
        )
    }
}

impl DependencyIndex {
    /// No pair has an empty file, and none has a file as its own dependent.
    pub open spec fn wf(&self) -> bool {
        forall|p: (Seq<char>, Seq<char>)| #[trigger] self@.contains(p) ==> p.0.len() > 0 && p.0 != p.1
    }

    /// The index without a pair.
    pub fn new() -> (out: DependencyIndex)
        ensures
            out@ == Set::<(Seq<char>, Seq<char>)>::empty(),
            out.wf(),
    {
        let out = DependencyIndex { pairs: Vec::new() };
        assert(out@ =~= Set::<(Seq<char>, Seq<char>)>::empty());
        out
    }

    /// Whether `document` is listed as depending on `file`.
    pub fn contains(&self, file: &str, document: &str) -> (out: bool)
        ensures
            out == self@.contains((file@, document@)),
    {
        let mut i: usize = 0;
        while i < self.pairs.len()
            invariant
                i <= self.pairs.len(),
                forall|j: int|
                    0 <= j < i ==> !((#[trigger] self.pairs@[j]).file@ == file@
                        && self.pairs@[j].document@ == document@),
            decreases self.pairs.len() - i,
        {
            if same_text(self.pairs[i].file.as_str(), file) && same_text(
                self.pairs[i].document.as_str(),
                document,
            ) {
                return true;
            }
            i += 1;
        }
        false
    }

    /// Notes that `document` depends on `file`. Nothing is noted for an empty
    /// file, nor for a file as its own dependent.
    pub fn insert(&mut self, file: String, document: String)
        ensures
            final(self)@ == noted(old(self)@, file@, document@),
            old(self).wf() ==> final(self).wf(),
    {
        if file.as_str().is_empty() || same_text(file.as_str(), document.as_str())
            || self.contains(file.as_str(), document.as_str()) {
            assert(self@ =~= noted(old(self)@, file@, document@));
            return ;
        }
        let ghost before = self.pairs@;
        let ghost pair = (file@, document@);
        self.pairs.push(Dependency { file, document });
        assert(self@ =~= old(self)@.insert(pair)) by {
            assert forall|p: (Seq<char>, Seq<char>)| self@.contains(p) implies old(self)@.insert(
                pair,
            ).contains(p) by {
                let i = choose|i: int|
                    0 <= i < self.pairs@.len() && (#[trigger] self.pairs@[i]).file@ == p.0
                        && self.pairs@[i].document@ == p.1;
                if i < before.len() {
                    assert(before[i].file@ == p.0 && before[i].document@ == p.1);
                }
            }
            assert forall|p: (Seq<char>, Seq<char>)|
                old(self)@.insert(pair).contains(p) implies self@.contains(p) by {
                if p == pair {
                    assert(self.pairs@[before.len() as int].file@ == p.0);
                } else {
                    let i = choose|i: int|
                        0 <= i < before.len() && (#[trigger] before[i]).file@ == p.0
                            && before[i].document@ == p.1;
                    assert(self.pairs@[i].file@ == p.0);
                }
            }
        }
    }

    /// The documents that depend on `file`, in the order in which they were
    /// noted.
    pub fn dependents(&self, file: &str) -> (out: Vec<String>)
        ensures
            texts(out@) == documents_upto(self.pairs@, file@, self.pairs@.len()),
            forall|document: Seq<char>|
                texts(out@).contains(document) <==> self@.contains((file@, document)),
    {
        let mut out: Vec<String> = Vec::new();
        let mut i: usize = 0;
        assert(texts(out@) =~= documents_upto(self.pairs@, file@, 0));
        while i < self.pairs.len()
            invariant
                i <= self.pairs.len(),
                texts(out@) == documents_upto(self.pairs@, file@, i as nat),
                forall|document: Seq<char>|
                    texts(out@).contains(document) <==> (exists|j: int|
                        0 <= j < i && (#[trigger] self.pairs@[j]).file@ == file@
                            && self.pairs@[j].document@ == document),
            decreases self.pairs.len() - i,
        {
            if same_text(self.pairs[i].file.as_str(), file) {
                let ghost before = out@;
                out.push(self.pairs[i].document.clone());
                assert(texts(out@) =~= texts(before).push(self.pairs@[i as int].document@));
                assert forall|document: Seq<char>|
                    texts(out@).contains(document) <==> (exists|j: int|
                        0 <= j < i + 1 && (#[trigger] self.pairs@[j]).file@ == file@
                            && self.pairs@[j].document@ == document) by {
                    if texts(out@).contains(document) {
                        let k = choose|k: int| 0 <= k < texts(out@).len() && texts(out@)[k] == document;
                        if k < before.len() {
                            assert(texts(before)[k] == document);
                            assert(texts(before).contains(document));
                        } else {
                            assert(self.pairs@[i as int].file@ == file@);
                        }
                    }
                    if exists|j: int|
                        0 <= j < i + 1 && (#[trigger] self.pairs@[j]).file@ == file@
                            && self.pairs@[j].document@ == document {
                        let j = choose|j: int|
                            0 <= j < i + 1 && (#[trigger] self.pairs@[j]).file@ == file@
                                && self.pairs@[j].document@ == document;
                        if j < i {
                            assert(texts(before).contains(document));
                            let k = choose|k: int|
                                0 <= k < texts(before).len() && texts(before)[k] == document;
                            assert(texts(out@)[k] == document);
                        } else {
                            assert(texts(out@)[before.len() as int] == document);
                        }
                    }
                }
            }
            i += 1;
        }
        out
    }
}

/// One entry of the endpoint table.
#[derive(Debug, PartialEq, Eq)]
pub struct Route {
    pub url: String,
    pub method: String,
    pub endpoint: ApiData,
}

/// The endpoint that answers a URL and a method. Where two endpoints are
/// given for the same URL and method, the one given last stays.
#[derive(Debug, PartialEq, Eq)]
pub struct EndpointTable {
    pub routes: Vec<Route>,
}

/// The routes as pairs of a key, the URL with the method, and an endpoint.
pub open spec fn routes_model(routes: Vec<Route>) -> Seq<((Seq<char>, Seq<char>), ApiDataModel)> {
    Seq::new(
        routes@.len(),
        |i: int| ((routes@[i].url@, routes@[i].method@), routes@[i].endpoint@),
    )
}

impl View for EndpointTable {
    type V = Map<(Seq<char>, Seq<char>), ApiDataModel>;

    /// The endpoint for each URL and method that has one.
    open spec fn view(&self) -> Map<(Seq<char>, Seq<char>), ApiDataModel> {
        let routes = routes_model(self.routes);
        Map::new(
            |k: (Seq<char>, Seq<char>)| key_position(routes, k) < routes.len(),
            |k: (Seq<char>, Seq<char>)| routes[key_position(routes, k)].1,
        )
    }
}

impl EndpointTable {
    /// The table without an endpoint.
    pub fn new() -> (out: EndpointTable)
        ensures
            out@ == Map::<(Seq<char>, Seq<char>), ApiDataModel>::empty(),
    {
        let out = EndpointTable { routes: Vec::new() };
        assert(out@ =~= Map::<(Seq<char>, Seq<char>), ApiDataModel>::empty());
        out
    }

    /// The index of the first route for `url` and `method`, or the number
    /// of routes.
    fn find(&self, url: &str, method: &str) -> (at: usize)
        ensures
            at == key_position(routes_model(self.routes), (url@, method@)),
            at <= self.routes.len(),
    {
        let mut i: usize = 0;
        while i < self.routes.len() && !(same_text(self.routes[i].url.as_str(), url) && same_text(
            self.routes[i].method.as_str(),
            method,
        ))
            invariant
                i <= self.routes.len(),
                forall|j: int| 0 <= j < i ==> routes_model(self.routes)[j].0 != (url@, method@),
            decreases self.routes.len() - i,
        {
            i += 1;
        }
        proof {
            lemma_key_position_is(routes_model(self.routes), (url@, method@), i as int);
        }
        i
    }

    /// The endpoint for `url` and `method`, if the table has one.
    pub fn get(&self, url: &str, method: &str) -> (out: Option<&ApiData>)
        ensures
            match out {
                Some(endpoint) => self@.contains_key((url@, method@)) && self@[(url@, method@)]
                    == endpoint@,
                None => !self@.contains_key((url@, method@)),
            },
    {
        let at = self.find(url, method);
        if at < self.routes.len() {
            Some(&self.routes[at].endpoint)
        } else {
            None
        }
    }

    /// Gives `endpoint` as the answer to `url` and `method`, in place of any
    /// that the table had for them.
    pub fn insert(&mut self, url: String, method: String, endpoint: ApiData)
        ensures
            final(self)@ == old(self)@.insert((url@, method@), endpoint@),
    {
        let at = self.find(url.as_str(), method.as_str());
        let ghost key = (url@, method@);
        let ghost model = endpoint@;
        let ghost before = routes_model(self.routes);
        if at < self.routes.len() {
            self.routes.set(at, Route { url, method, endpoint });
            assert(routes_model(self.routes) =~= before.update(at as int, (key, model)));
        } else {
            self.routes.push(Route { url, method, endpoint });
            assert(routes_model(self.routes) =~= before.push((key, model)));
        }
        let ghost after = routes_model(self.routes);
        assert(self@ =~= old(self)@.insert(key, model)) by {
            lemma_key_position(before, key, 0);
            lemma_key_position_is(after, key, at as int);
            assert forall|k: (Seq<char>, Seq<char>)| k != key implies ((key_position(after, k)
                < after.len()) <==> (key_position(before, k) < before.len())) && (key_position(
                before,
                k,
            ) < before.len() ==> after[key_position(after, k)].1 == before[key_position(
                before,
                k,
            )].1) by {
                lemma_key_position(before, k, 0);
                let p = key_position(before, k);
                if p < before.len() {
                    lemma_key_position_is(after, k, p);
                } else {
                    lemma_key_position_is(after, k, after.len() as int);
                }
            }
        }
    }
}

} // verus!
