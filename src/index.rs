use vstd::prelude::*;

use crate::exclusion::same_text;
use crate::text::{is_infix, is_prefix, lower_of, str_contains, str_starts_with, to_lower};

verus! {

/// One indexed file-system entry.
pub struct Document {
    pub name: String,
    pub path: String,
    pub is_dir: bool,
    pub ext: String,
}

/// What a document holds, as mathematical values.
pub struct DocView {
    pub name: Seq<char>,
    pub path: Seq<char>,
    pub is_dir: bool,
    pub ext: Seq<char>,
}

impl View for Document {
    type V = DocView;

    open spec fn view(&self) -> DocView {
        DocView { name: self.name@, path: self.path@, is_dir: self.is_dir, ext: self.ext@ }
    }
}

impl Document {
    /// A document with the given fields.
    pub fn new(name: String, path: String, is_dir: bool, ext: String) -> (r: Document)
        ensures
            r@ == (DocView { name: name@, path: path@, is_dir, ext: ext@ }),
    {
        Document { name, path, is_dir, ext }
    }

    /// A copy of this document.
    pub fn duplicate(&self) -> (r: Document)
        ensures
            r@ == self@,
    {
        Document {
            name: self.name.clone(),
            path: self.path.clone(),
            is_dir: self.is_dir,
            ext: self.ext.clone(),
        }
    }
}

/// The views of a list of documents.
pub open spec fn docs_view(v: Seq<Document>) -> Seq<DocView> {
    v.map_values(|d: Document| d@)
}

/// No two documents share a path.
pub open spec fn unique_paths(docs: Seq<DocView>) -> bool {
    forall|i: int, j: int| 0 <= i < j < docs.len() ==> #[trigger] docs[i].path != #[trigger] docs[j].path
}

/// Some document has the path `p`.
pub open spec fn has_path(docs: Seq<DocView>, p: Seq<char>) -> bool {
    exists|i: int| 0 <= i < docs.len() && #[trigger] docs[i].path == p
}

/// `docs` after adding `d`: the document with the same path is replaced, or
/// `d` is appended when there is none.
pub open spec fn upsert(docs: Seq<DocView>, d: DocView) -> Seq<DocView> {
    if has_path(docs, d.path) {
        docs.map_values(|x: DocView| if x.path == d.path { d } else { x })
    } else {
        docs.push(d)
    }
}

/// `docs` after adding each of `pending` in order.
pub open spec fn upsert_all(docs: Seq<DocView>, pending: Seq<DocView>) -> Seq<DocView>
    decreases pending.len(),
{
    if pending.len() == 0 {
        docs
    } else {
        upsert(upsert_all(docs, pending.drop_last()), pending.last())
    }
}

/// The documents of `docs` that satisfy `pred`, in order.
pub open spec fn pick(docs: Seq<DocView>, pred: spec_fn(DocView) -> bool) -> Seq<DocView>
    decreases docs.len(),
{
    if docs.len() == 0 {
        Seq::empty()
    } else if pred(docs.last()) {
        pick(docs.drop_last(), pred).push(docs.last())
    } else {
        pick(docs.drop_last(), pred)
    }
}

/// At most the first `n` elements of `s`.
pub open spec fn first_n(s: Seq<DocView>, n: nat) -> Seq<DocView> {
    if s.len() <= n {
        s
    } else {
        s.take(n as int)
    }
}

/// A suggestion hit: the lowercased name starts with the lowercased prefix.
pub open spec fn suggest_pred(lower_prefix: Seq<char>) -> spec_fn(DocView) -> bool {
    |d: DocView| is_prefix(lower_prefix, lower_of(d.name))
}

/// The wildcard query, which matches every document.
pub open spec fn wildcard() -> Seq<char> {
    seq!['*']
}

/// A search hit: the query is the wildcard or its lowercase form occurs in
/// the lowercased name, and the document passes both optional filters.
pub open spec fn search_pred(
    query: Seq<char>,
    is_dir: Option<bool>,
    ext: Option<Seq<char>>,
) -> spec_fn(DocView) -> bool {
    |d: DocView|
        {
            &&& (query == wildcard() || is_infix(lower_of(query), lower_of(d.name)))
            &&& (is_dir matches Some(b) ==> d.is_dir == b)
            &&& (ext matches Some(e) ==> d.ext == e)
        }
}

/// The view of an optional string.
pub open spec fn opt_view(o: Option<String>) -> Option<Seq<char>> {
    match o {
        Some(e) => Some(e@),
        None => None,
    }
}

/// Documents returned by a search, with the number of all matches.
pub struct SearchResult {
    pub docs: Vec<Document>,
    pub total: usize,
}

/// Whether a lowercased name answers a lowercased suggestion prefix.
pub fn suggest_hit(lower_prefix: &str, lower_name: &str) -> (r: bool)
    ensures
        r == is_prefix(lower_prefix@, lower_name@),
{
    str_starts_with(lower_name, lower_prefix)
}

/// Whether a document answers a search, given the lowercased query and the
/// lowercased name of the document.
pub fn search_hit(
    wild: bool,
    lower_query: &str,
    lower_name: &str,
    d: &Document,
    is_dir: Option<bool>,
    ext: &Option<String>,
) -> (r: bool)
    ensures
        r == ((wild || is_infix(lower_query@, lower_name@)) && (is_dir matches Some(b)
            ==> d.is_dir == b) && (ext matches Some(e) ==> d.ext@ == e@)),
{
    if !wild && !str_contains(lower_name, lower_query) {
        return false;
    }
    match is_dir {
        Some(b) => {
            if d.is_dir != b {
                return false;
            }
        },
        None => {},
    }
    match ext {
        Some(e) => same_text(d.ext.as_str(), e.as_str()),
        None => true,
    }
}

fn upsert_into(docs: &mut Vec<Document>, d: &Document)
    requires
        unique_paths(docs_view(old(docs)@)),
    ensures
        unique_paths(docs_view(final(docs)@)),
        docs_view(final(docs)@) == upsert(docs_view(old(docs)@), d@),
{
    let ghost pre = docs_view(docs@);
    let ghost f = |x: DocView| if x.path == d@.path { d@ } else { x };
    let mut found = false;
    let mut j: usize = 0;
    while j < docs.len()
        invariant
            f == (|x: DocView| if x.path == d@.path { d@ } else { x }),
            pre.len() == docs@.len(),
            j <= docs@.len(),
            forall|k: int| 0 <= k < j ==> #[trigger] docs_view(docs@)[k] == f(pre[k]),
            forall|k: int| j <= k < docs@.len() ==> #[trigger] docs_view(docs@)[k] == pre[k],
            found <==> exists|k: int| 0 <= k < j && #[trigger] pre[k].path == d@.path,
        decreases docs@.len() - j,
    {
        proof {
            assert(docs_view(docs@)[j as int] == docs@[j as int]@);
        }
        let ghost mid = docs@;
        if same_text(docs[j].path.as_str(), d.path.as_str()) {
            let c = d.duplicate();
            docs.set(j, c);
            found = true;
        }
        proof {
            assert(docs_view(docs@)[j as int] == docs@[j as int]@);
            assert(docs_view(docs@)[j as int] == f(pre[j as int]));
            assert forall|k: int| 0 <= k < docs@.len() && k != j implies #[trigger] docs_view(docs@)[k]
                == docs_view(mid)[k] by {
                assert(docs@[k] == mid[k]);
            }
        }
        j = j + 1;
    }
    if found {
        proof {
            assert(has_path(pre, d@.path));
            assert(docs_view(docs@) =~= pre.map_values(f));
            assert forall|a: int, b: int| 0 <= a < b < docs@.len() implies #[trigger] docs_view(
                docs@,
            )[a].path != #[trigger] docs_view(docs@)[b].path by {
                assert(docs_view(docs@)[a].path == pre[a].path);
                assert(docs_view(docs@)[b].path == pre[b].path);
            }
        }
    } else {
        let c = d.duplicate();
        let ghost mid = docs@;
        docs.push(c);
        proof {
            assert(!has_path(pre, d@.path));
            assert forall|k: int| 0 <= k < pre.len() implies docs_view(docs@)[k] == pre[k] by {
                assert(docs@[k] == mid[k]);
                assert(docs_view(mid)[k] == f(pre[k]));
                assert(f(pre[k]) == pre[k]);
            }
            assert(docs_view(docs@) =~= pre.push(d@));
        }
    }
}

/// A document index: added documents wait in a buffer until `commit` makes
/// them visible to the queries.
pub struct SearchIndex {
    committed: Vec<Document>,
    pending: Vec<Document>,
}

impl SearchIndex {
    /// The committed documents, which the queries see.
    pub closed spec fn docs(&self) -> Seq<DocView> {
        docs_view(self.committed@)
    }

    /// The documents added since the last commit, in order.
    pub closed spec fn buffered(&self) -> Seq<DocView> {
        docs_view(self.pending@)
    }

    /// No two committed documents share a path.
    pub open spec fn wf(&self) -> bool {
        unique_paths(self.docs())
    }

    /// An empty index.
    pub fn new() -> (r: SearchIndex)
        ensures
            r.wf(),
            r.docs() == Seq::<DocView>::empty(),
            r.buffered() == Seq::<DocView>::empty(),
    {
        let r = SearchIndex { committed: Vec::new(), pending: Vec::new() };
        assert(r.docs() =~= Seq::<DocView>::empty());
        assert(r.buffered() =~= Seq::<DocView>::empty());
        r
    }

    /// Buffers a document; queries do not see it before the next commit.
    pub fn add(&mut self, name: String, path: String, is_dir: bool, ext: String)
        ensures
            final(self).docs() == old(self).docs(),
            final(self).buffered() == old(self).buffered().push(
                DocView { name: name@, path: path@, is_dir, ext: ext@ },
            ),
    {
        let d = Document::new(name, path, is_dir, ext);
        let ghost before = self.buffered();
        self.pending.push(d);
        assert(self.buffered() =~= before.push(d@));
    }

    /// Makes every buffered document visible, replacing committed ones with
    /// the same path.
    pub fn commit(&mut self)
        requires
            old(self).wf(),
        ensures
            final(self).wf(),
            final(self).docs() == upsert_all(old(self).docs(), old(self).buffered()),
            final(self).buffered() == Seq::<DocView>::empty(),
    {
        let ghost start = self.docs();
        let ghost todo = self.buffered();
        let mut i: usize = 0;
        while i < self.pending.len()
            invariant
                todo == docs_view(self.pending@),
                i <= self.pending@.len(),
                unique_paths(docs_view(self.committed@)),
                docs_view(self.committed@) == upsert_all(start, todo.take(i as int)),
            decreases self.pending@.len() - i,
        {
            upsert_into(&mut self.committed, &self.pending[i]);
            proof {
                assert(todo.take(i + 1).drop_last() =~= todo.take(i as int));
                assert(todo.take(i + 1).last() == self.pending@[i as int]@);
            }
            i = i + 1;
        }
        assert(todo.take(i as int) =~= todo);
        self.pending = Vec::new();
        assert(self.buffered() =~= Seq::<DocView>::empty());
    }

    /// The `i`-th committed document.
    pub fn doc_at(&self, i: usize) -> (r: &Document)
        requires
            i < self.docs().len(),
        ensures
            r@ == self.docs()[i as int],
    {
        &self.committed[i]
    }

    /// The number of committed documents.
    pub fn num_docs(&self) -> (r: usize)
        ensures
            r == self.docs().len(),
    {
        self.committed.len()
    }

    /// Up to `limit` committed documents whose lowercased name starts with the
    /// lowercased `kw`, in index order.
    pub fn suggest(&self, kw: &str, limit: usize) -> (r: Vec<Document>)
        ensures
            docs_view(r@) == first_n(pick(self.docs(), suggest_pred(lower_of(kw@))), limit as nat),
    {
        let q = to_lower(kw);
        let ghost pred = suggest_pred(lower_of(kw@));
        let mut out: Vec<Document> = Vec::new();
        let mut i: usize = 0;
        while i < self.committed.len()
            invariant
                pred == suggest_pred(lower_of(kw@)),
                q@ == lower_of(kw@),
                i <= self.committed@.len(),
                docs_view(out@) == first_n(pick(self.docs().take(i as int), pred), limit as nat),
            decreases self.committed@.len() - i,
        {
            let d = &self.committed[i];
            let name = to_lower(d.name.as_str());
            let hit = suggest_hit(q.as_str(), name.as_str());
            proof {
                let s = self.docs().take(i + 1);
                assert(s.drop_last() =~= self.docs().take(i as int));
                assert(s.last() == d@);
            }
            if hit && out.len() < limit {
                let ghost before = docs_view(out@);
                out.push(d.duplicate());
                assert(docs_view(out@) =~= before.push(d@));
            }
            i = i + 1;
        }
        assert(self.docs().take(i as int) =~= self.docs());
        out
    }

    /// Up to `limit` committed documents that answer the query (see
    /// `search_pred`), in index order, and the number of all that do.
    pub fn search_with_filter(
        &self,
        kw: &str,
        limit: usize,
        is_dir: Option<bool>,
        ext: Option<String>,
    ) -> (r: SearchResult)
        ensures
            ({
                let hits = pick(self.docs(), search_pred(kw@, is_dir, opt_view(ext)));
                &&& docs_view(r.docs@) == first_n(hits, limit as nat)
                &&& r.total == hits.len()
            }),
    {
        let ghost ev = opt_view(ext);
        let ghost pred = search_pred(kw@, is_dir, ev);
        let star = String::from_str("*");
        proof {
            reveal_strlit("*");
            assert(star@ =~= wildcard());
        }
        let wild = same_text(kw, star.as_str());
        let q = to_lower(kw);
        let mut out: Vec<Document> = Vec::new();
        let mut total: usize = 0;
        let mut i: usize = 0;
        while i < self.committed.len()
            invariant
                pred == search_pred(kw@, is_dir, ev),
                ev == opt_view(ext),
                wild == (kw@ == wildcard()),
                q@ == lower_of(kw@),
                i <= self.committed@.len(),
                total == pick(self.docs().take(i as int), pred).len(),
                docs_view(out@) == first_n(pick(self.docs().take(i as int), pred), limit as nat),
            decreases self.committed@.len() - i,
        {
            let d = &self.committed[i];
            let name = to_lower(d.name.as_str());
            let hit = search_hit(wild, q.as_str(), name.as_str(), d, is_dir, &ext);
            proof {
                let s = self.docs().take(i + 1);
                assert(s.drop_last() =~= self.docs().take(i as int));
                assert(s.last() == d@);
                assert(hit == pred(d@));
            }
            if hit {
                proof {
                    lemma_pick_len_bound(self.docs().take(i as int), pred);
                }
                total = total + 1;
                if out.len() < limit {
                    let ghost before = docs_view(out@);
                    out.push(d.duplicate());
                    assert(docs_view(out@) =~= before.push(d@));
                }
            }
            i = i + 1;
        }
        assert(self.docs().take(i as int) =~= self.docs());
        SearchResult { docs: out, total }
    }
}

proof fn lemma_pick_len_bound(docs: Seq<DocView>, pred: spec_fn(DocView) -> bool)
    ensures
        pick(docs, pred).len() <= docs.len(),
    decreases docs.len(),
{
    if docs.len() > 0 {
        lemma_pick_len_bound(docs.drop_last(), pred);
    }
}

/// Every document with the path of `d` is `d` itself.
pub open spec fn only_doc_for_path(docs: Seq<DocView>, d: DocView) -> bool {
    forall|i: int| 0 <= i < docs.len() && #[trigger] docs[i].path == d.path ==> docs[i] == d
}

proof fn lemma_upsert(docs: Seq<DocView>, d: DocView)
    requires
        unique_paths(docs),
    ensures
        unique_paths(upsert(docs, d)),
        upsert(docs, d).contains(d),
        only_doc_for_path(upsert(docs, d), d),
        forall|p: Seq<char>| p != d.path ==> (has_path(upsert(docs, d), p) <==> has_path(docs, p)),
{
    let r = upsert(docs, d);
    if has_path(docs, d.path) {
        let k = choose|k: int| 0 <= k < docs.len() && #[trigger] docs[k].path == d.path;
        assert(r[k] == d);
        assert forall|i: int, j: int| 0 <= i < j < r.len() implies #[trigger] r[i].path
            != #[trigger] r[j].path by {
            assert(docs[i].path != docs[j].path);
        }
        assert forall|p: Seq<char>| p != d.path implies (has_path(r, p) <==> has_path(docs, p)) by {
            if has_path(r, p) {
                let i = choose|i: int| 0 <= i < r.len() && #[trigger] r[i].path == p;
                assert(docs[i].path == p);
            }
            if has_path(docs, p) {
                let i = choose|i: int| 0 <= i < docs.len() && #[trigger] docs[i].path == p;
                assert(r[i].path == p);
            }
        }
    } else {
        let n = docs.len() as int;
        assert(r[n] == d);
        assert forall|i: int| 0 <= i < r.len() && #[trigger] r[i].path == d.path implies r[i]
            == d by {
            if i < n {
                assert(docs[i].path == d.path);
            }
        }
        assert forall|i: int, j: int| 0 <= i < j < r.len() implies #[trigger] r[i].path
            != #[trigger] r[j].path by {
            if j == n {
                if docs[i].path == d.path {
                    assert(has_path(docs, d.path));
                }
            }
        }
        assert forall|p: Seq<char>| p != d.path implies (has_path(r, p) <==> has_path(docs, p)) by {
            if has_path(r, p) {
                let i = choose|i: int| 0 <= i < r.len() && #[trigger] r[i].path == p;
                assert(docs[i].path == p);
            }
            if has_path(docs, p) {
                let i = choose|i: int| 0 <= i < docs.len() && #[trigger] docs[i].path == p;
                assert(r[i].path == p);
            }
        }
    }
}

/// Adding one path twice leaves one document for it, holding the values of
/// the later add, and no two documents share a path.
pub proof fn law_upsert_not_duplicate(docs: Seq<DocView>, first: DocView, second: DocView)
    requires
        unique_paths(docs),
        first.path == second.path,
    ensures
        unique_paths(upsert_all(docs, seq![first, second])),
        upsert_all(docs, seq![first, second]).contains(second),
        only_doc_for_path(upsert_all(docs, seq![first, second]), second),
{
    let two = seq![first, second];
    assert(two.drop_last() =~= seq![first]);
    assert(seq![first].drop_last() =~= Seq::<DocView>::empty());
    assert(upsert_all(docs, Seq::<DocView>::empty()) == docs);
    assert(seq![first].last() == first);
    assert(upsert_all(docs, seq![first]) == upsert(upsert_all(docs, seq![first].drop_last()), first));
    assert(upsert_all(docs, seq![first]) == upsert(docs, first));
    assert(two.last() == second);
    lemma_upsert(docs, first);
    lemma_upsert(upsert(docs, first), second);
}

/// An add becomes visible exactly through the commit: the committed
/// documents after `commit` hold the last buffered document, under a path
/// that no other committed document shares.
pub proof fn law_commit_makes_add_visible(docs: Seq<DocView>, buffered: Seq<DocView>, d: DocView)
    requires
        unique_paths(docs),
    ensures
        unique_paths(upsert_all(docs, buffered.push(d))),
        upsert_all(docs, buffered.push(d)).contains(d),
    decreases buffered.len(),
{
    lemma_upsert_all_unique(docs, buffered);
    assert(buffered.push(d).drop_last() =~= buffered);
    lemma_upsert(upsert_all(docs, buffered), d);
}

proof fn lemma_upsert_all_unique(docs: Seq<DocView>, pending: Seq<DocView>)
    requires
        unique_paths(docs),
    ensures
        unique_paths(upsert_all(docs, pending)),
    decreases pending.len(),
{
    if pending.len() > 0 {
        lemma_upsert_all_unique(docs, pending.drop_last());
        lemma_upsert(upsert_all(docs, pending.drop_last()), pending.last());
    }
}

} // verus!
