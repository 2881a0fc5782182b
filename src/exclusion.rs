use vstd::prelude::*;

use crate::text::{is_prefix, str_starts_with};

verus! {

/// Some prefix of `prefixes` is a prefix of `path`.
pub open spec fn matches_any(prefixes: Seq<Seq<char>>, path: Seq<char>) -> bool {
    exists|i: int| 0 <= i < prefixes.len() && is_prefix(#[trigger] prefixes[i], path)
}

/// The view of a list of strings as a sequence of character sequences.
pub open spec fn strings_view(v: Seq<String>) -> Seq<Seq<char>> {
    v.map_values(|s: String| s@)
}

/// Whether `path` starts with one of `prefixes`.
pub fn starts_with_any(prefixes: &Vec<String>, path: &str) -> (r: bool)
    ensures
        r == matches_any(strings_view(prefixes@), path@),
{
    let mut i: usize = 0;
    while i < prefixes.len()
        invariant
            i <= prefixes@.len(),
            forall|j: int| 0 <= j < i ==> !is_prefix(#[trigger] prefixes@[j]@, path@),
        decreases prefixes@.len() - i,
    {
        if str_starts_with(path, prefixes[i].as_str()) {
            assert(strings_view(prefixes@)[i as int] == prefixes@[i as int]@);
            return true;
        }
        i = i + 1;
    }
    assert forall|j: int| 0 <= j < strings_view(prefixes@).len() implies !is_prefix(
        #[trigger] strings_view(prefixes@)[j],
        path@,
    ) by {
        assert(strings_view(prefixes@)[j] == prefixes@[j]@);
    }
    false
}

/// Whether `a` and `b` hold the same characters.
pub fn same_text(a: &str, b: &str) -> (r: bool)
    ensures
        r == (a@ == b@),
{
    proof {
        assert(a@.subrange(0, a@.len() as int) =~= a@);
    }
    let ab = str_starts_with(a, b);
    let ba = str_starts_with(b, a);
    proof {
        if ab && ba {
            assert(a@ =~= b@);
        }
    }
    ab && ba
}

/// The user's list of excluded path prefixes.
pub struct ExclusionPolicy {
    paths: Vec<String>,
}

impl View for ExclusionPolicy {
    type V = Seq<Seq<char>>;

    closed spec fn view(&self) -> Seq<Seq<char>> {
        strings_view(self.paths@)
    }
}

/// The root of the file system, which may not be excluded.
pub open spec fn fs_root() -> Seq<char> {
    seq!['/']
}

impl ExclusionPolicy {
    /// An empty policy: nothing is excluded.
    pub fn new() -> (r: ExclusionPolicy)
        ensures
            r@ == Seq::<Seq<char>>::empty(),
    {
        let r = ExclusionPolicy { paths: Vec::new() };
        assert(r@ =~= Seq::<Seq<char>>::empty());
        r
    }

    /// True iff `path` starts with a configured prefix.
    pub fn matches(&self, path: &str) -> (r: bool)
        ensures
            r == matches_any(self@, path@),
    {
        starts_with_any(&self.paths, path)
    }

    /// The configured prefixes, in order.
    pub fn exclude_index_path(&self) -> (r: &Vec<String>)
        ensures
            strings_view(r@) == self@,
    {
        &self.paths
    }

    /// Whether `path` is configured already.
    pub fn contains(&self, path: &str) -> (r: bool)
        ensures
            r == self@.contains(path@),
    {
        let mut i: usize = 0;
        while i < self.paths.len()
            invariant
                i <= self.paths@.len(),
                forall|j: int| 0 <= j < i ==> self.paths@[j]@ != path@,
            decreases self.paths@.len() - i,
        {
            let p: &str = self.paths[i].as_str();
            if same_text(p, path) {
                assert(self@[i as int] == self.paths@[i as int]@);
                assert(self.paths@[i as int]@ =~= path@);
                return true;
            }
            i = i + 1;
        }
        assert(!self@.contains(path@)) by {
            assert forall|j: int| 0 <= j < self@.len() implies self@[j] != path@ by {
                assert(self@[j] == self.paths@[j]@);
            }
        }
        false
    }

    /// Adds `path` to the list. Returns 1 and changes nothing when `path` is the
    /// file-system root or is listed already; else appends it and returns 0.
    pub fn add_exclude_index_path(&mut self, path: String) -> (r: u8)
        ensures
            r == 0 || r == 1,
            r == 1 <==> (path@ == fs_root() || old(self)@.contains(path@)),
            r == 1 ==> final(self)@ == old(self)@,
            r == 0 ==> final(self)@ == old(self)@.push(path@),
    {
        let root = String::from_str("/");
        proof {
            reveal_strlit("/");
            assert(root@ =~= fs_root());
        }
        if path == root {
            return 1;
        }
        if self.contains(path.as_str()) {
            return 1;
        }
        self.paths.push(path);
        assert(self@ =~= old(self)@.push(path@));
        0
    }

    /// Removes every entry equal to `path`.
    pub fn remove_exclude_index_path(&mut self, path: &str)
        ensures
            final(self)@ == old(self)@.filter(|p: Seq<char>| p != path@),
    {
        let ghost pred = |p: Seq<char>| p != path@;
        let mut kept: Vec<String> = Vec::new();
        let mut i: usize = 0;
        while i < self.paths.len()
            invariant
                i <= self.paths@.len(),
                pred == (|p: Seq<char>| p != path@),
                strings_view(kept@) == self@.subrange(0, i as int).filter(pred),
            decreases self.paths@.len() - i,
        {
            let p: &str = self.paths[i].as_str();
            let same = same_text(p, path);
            proof {
                let s = self@.subrange(0, i + 1);
                assert(s.drop_last() =~= self@.subrange(0, i as int));
                assert(self@[i as int] == self.paths@[i as int]@);
                assert(s.last() == self.paths@[i as int]@);
                reveal(Seq::filter);
                assert(s.filter(pred) == (if pred(s.last()) {
                    s.drop_last().filter(pred).push(s.last())
                } else {
                    s.drop_last().filter(pred)
                }));
            }
            if !same {
                let c = self.paths[i].clone();
                let ghost before = kept@;
                kept.push(c);
                assert(strings_view(kept@) =~= strings_view(before).push(c@));
            }
            i = i + 1;
        }
        assert(self@.subrange(0, self.paths@.len() as int) =~= self@);
        self.paths = kept;
    }
}

} // verus!
