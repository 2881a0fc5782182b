use vstd::prelude::*;

use crate::checkpoint::KvStore;
use crate::exclusion::{fs_root, strings_view, ExclusionPolicy};
use crate::index::{
    docs_view, first_n, opt_view, pick, search_pred, suggest_pred, wildcard, Document,
    SearchIndex, SearchResult,
};
use crate::metrics::{phase_percent, WalkMatrixView, WalkMetrics};
use crate::text::{is_prefix, lower_of, walk_key_prefix};

verus! {

/// How many suggestions a query returns.
pub const SUGGEST_LIMIT: usize = 20;

/// How many documents a search returns.
pub const SEARCH_LIMIT: usize = 100;

/// The search query for the text typed: empty text asks for everything.
pub open spec fn normalized_query(kw: Seq<char>) -> Seq<char> {
    if kw.len() == 0 {
        wildcard()
    } else {
        kw
    }
}

/// The progress of the walk, with the number of committed documents.
pub fn get_walk_matrix(metrics: &WalkMetrics, index: &SearchIndex) -> (r: WalkMatrixView)
    ensures
        r.phase == metrics.phase,
        r.percent as nat == phase_percent(metrics.phase),
        r.doc_count == index.docs().len() as u64,
{
    metrics.view(index.num_docs() as u64)
}

/// Up to twenty committed documents whose name starts with `kw`, ignoring case.
pub fn suggest(index: &SearchIndex, kw: &str) -> (r: Vec<Document>)
    ensures
        docs_view(r@) == first_n(pick(index.docs(), suggest_pred(lower_of(kw@))), 20),
{
    index.suggest(kw, SUGGEST_LIMIT)
}

/// Up to a hundred committed documents answering `kw` and the filters, and
/// the number of all that do; empty `kw` matches every document.
pub fn search(index: &SearchIndex, kw: String, is_dir_opt: Option<bool>, ext_opt: Option<String>) -> (r: SearchResult)
    ensures
        ({
            let hits = pick(
                index.docs(),
                search_pred(normalized_query(kw@), is_dir_opt, opt_view(ext_opt)),
            );
            &&& docs_view(r.docs@) == first_n(hits, 100)
            &&& r.total == hits.len()
        }),
{
    let mut q = kw;
    if q.as_str().unicode_len() == 0 {
        q = String::from_str("*");
        proof {
            reveal_strlit("*");
            assert(q@ =~= wildcard());
        }
    }
    index.search_with_filter(q.as_str(), SEARCH_LIMIT, is_dir_opt, ext_opt)
}

/// Excludes `path` from indexing. Answers 1, changing nothing, for the
/// file-system root or a path excluded already; else 0.
pub fn add_exclude_path(policy: &mut ExclusionPolicy, path: String) -> (r: u8)
    ensures
        r == 0 || r == 1,
        r == 1 <==> (path@ == fs_root() || old(policy)@.contains(path@)),
        r == 1 ==> final(policy)@ == old(policy)@,
        r == 0 ==> final(policy)@ == old(policy)@.push(path@),
{
    policy.add_exclude_index_path(path)
}

/// The excluded prefixes, in order.
pub fn get_exclude_paths(policy: &ExclusionPolicy) -> (r: Vec<String>)
    ensures
        strings_view(r@) == policy@,
{
    let src = policy.exclude_index_path();
    let mut out: Vec<String> = Vec::new();
    let mut i: usize = 0;
    while i < src.len()
        invariant
            i <= src@.len(),
            strings_view(out@) == strings_view(src@).take(i as int),
        decreases src@.len() - i,
    {
        let ghost before = out@;
        let c = src[i].clone();
        out.push(c);
        proof {
            assert(strings_view(out@) =~= strings_view(before).push(c@));
            assert(strings_view(src@).take(i + 1) =~= strings_view(src@).take(i as int).push(
                src@[i as int]@,
            ));
        }
        i = i + 1;
    }
    assert(strings_view(src@).take(i as int) =~= strings_view(src@));
    out
}

/// No longer excludes `path`.
pub fn remove_exclude_path(policy: &mut ExclusionPolicy, path: String)
    ensures
        final(policy)@ == old(policy)@.filter(|p: Seq<char>| p != path@),
{
    policy.remove_exclude_index_path(path.as_str());
}

/// Forgets every walk checkpoint, so that the next run walks every root again.
pub fn reindex(store: &mut KvStore)
    requires
        old(store).wf(),
    ensures
        final(store).wf(),
        final(store)@ == old(store)@.restrict(
            old(store)@.dom().filter(|k: Seq<char>| !is_prefix(walk_key_prefix(), k)),
        ),
{
    store.clear_walk_checkpoints();
}

} // verus!
