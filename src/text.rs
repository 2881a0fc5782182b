use vstd::prelude::*;

verus! {

/// `p` is a prefix of `s`.
pub open spec fn is_prefix(p: Seq<char>, s: Seq<char>) -> bool {
    p.len() <= s.len() && s.subrange(0, p.len() as int) == p
}

/// `p` occurs somewhere inside `s`.
pub open spec fn is_infix(p: Seq<char>, s: Seq<char>) -> bool {
    exists|i: int| 0 <= i && i + p.len() <= s.len() && #[trigger] s.subrange(i, i + p.len()) == p
}

/// The text that `str::to_lowercase` makes of a string: it depends on the characters alone.
pub uninterp spec fn lower_of(s: Seq<char>) -> Seq<char>;

fn matches_at(s: &str, p: &str, n: usize, m: usize, start: usize) -> (r: bool)
    requires
        n == s@.len(),
        m == p@.len(),
        start + m <= n,
    ensures
        r == (s@.subrange(start as int, start + m) == p@),
{
    let mut i: usize = 0;
    while i < m
        invariant
            n == s@.len(),
            m == p@.len(),
            start + m <= n,
            i <= m,
            forall|j: int| 0 <= j < i ==> s@[start + j] == p@[j],
        decreases m - i,
    {
        if s.get_char(start + i) != p.get_char(i) {
            assert(s@.subrange(start as int, start + m)[i as int] != p@[i as int]);
            return false;
        }
        i = i + 1;
    }
    assert(s@.subrange(start as int, start + m) =~= p@);
    true
}

/// Whether `p` is a prefix of `s`.
pub(crate) fn str_starts_with(s: &str, p: &str) -> (r: bool)
    ensures
        r == is_prefix(p@, s@),
{
    let n = s.unicode_len();
    let m = p.unicode_len();
    if m > n {
        return false;
    }
    matches_at(s, p, n, m, 0)
}

/// Whether `p` occurs in `s`.
pub(crate) fn str_contains(s: &str, p: &str) -> (r: bool)
    ensures
        r == is_infix(p@, s@),
{
    let n = s.unicode_len();
    let m = p.unicode_len();
    if m > n {
        return false;
    }
    let mut start: usize = 0;
    loop
        invariant
            n == s@.len(),
            m == p@.len(),
            m <= n,
            start <= n - m,
            forall|k: int| 0 <= k < start ==> #[trigger] s@.subrange(k, k + m) != p@,
        decreases n - m - start,
    {
        if matches_at(s, p, n, m, start) {
            return true;
        }
        if start == n - m {
            return false;
        }
        start = start + 1;
    }
}

/// Relies on `str::to_lowercase`: the lowercase form of `s`, a function of its characters.
#[verifier::external_body]
pub(crate) fn to_lower(s: &str) -> (r: String)
    ensures
        r@ == lower_of(s@),
{
    s.to_lowercase()
}

/// The last index at which `c` stands in `s`, if any.
pub open spec fn last_index_of(s: Seq<char>, c: char) -> Option<int>
    decreases s.len(),
{
    if s.len() == 0 {
        None
    } else if s.last() == c {
        Some(s.len() - 1)
    } else {
        last_index_of(s.drop_last(), c)
    }
}

proof fn lemma_last_index_of_bounds(s: Seq<char>, c: char)
    ensures
        last_index_of(s, c) matches Some(i) ==> 0 <= i < s.len() && s[i] == c,
    decreases s.len(),
{
    if s.len() > 0 && s.last() != c {
        lemma_last_index_of_bounds(s.drop_last(), c);
    }
}

/// Finds the last position of `c` in `s`.
pub fn find_last(s: &str, c: char) -> (r: Option<usize>)
    ensures
        r matches Some(i) ==> last_index_of(s@, c) == Some(i as int),
        r is None ==> last_index_of(s@, c) is None,
{
    let n = s.unicode_len();
    let mut i: usize = n;
    assert(s@.subrange(0, n as int) =~= s@);
    while i > 0
        invariant
            n == s@.len(),
            i <= n,
            last_index_of(s@, c) == last_index_of(s@.subrange(0, i as int), c),
        decreases i,
    {
        let ch = s.get_char(i - 1);
        assert(s@.subrange(0, i as int).drop_last() == s@.subrange(0, i - 1));
        if ch == c {
            return Some(i - 1);
        }
        i = i - 1;
    }
    assert(s@.subrange(0, 0).len() == 0);
    None
}

/// The name of the last component of a path: what follows its last `/`.
pub open spec fn name_of(path: Seq<char>) -> Seq<char> {
    match last_index_of(path, '/') {
        Some(i) => path.subrange(i + 1, path.len() as int),
        None => path,
    }
}

/// The extension of a file name: what follows its last `.`, unless that dot
/// is the first character (a hidden file) or there is none; then it is empty.
pub open spec fn ext_of(name: Seq<char>) -> Seq<char> {
    match last_index_of(name, '.') {
        Some(i) => if i == 0 {
            Seq::empty()
        } else {
            name.subrange(i + 1, name.len() as int)
        },
        None => Seq::empty(),
    }
}

/// The last component of `path`.
pub fn path2name(path: &str) -> (r: String)
    ensures
        r@ == name_of(path@),
{
    proof {
        lemma_last_index_of_bounds(path@, '/');
    }
    match find_last(path, '/') {
        Some(i) => {
            let n = path.unicode_len();
            path.substring_char(i + 1, n).to_string()
        },
        None => path.to_string(),
    }
}

/// The extension of the file name `name`, empty when it has none.
pub fn file_ext(name: &str) -> (r: String)
    ensures
        r@ == ext_of(name@),
{
    proof {
        lemma_last_index_of_bounds(name@, '.');
    }
    match find_last(name, '.') {
        Some(i) => {
            if i == 0 {
                String::new()
            } else {
                let n = name.unicode_len();
                name.substring_char(i + 1, n).to_string()
            }
        },
        None => String::new(),
    }
}

/// The extension indexed for an entry: empty for a directory, else that of
/// its file name.
pub fn entry_ext(name: &str, is_dir: bool) -> (r: String)
    ensures
        r@ == (if is_dir {
            Seq::<char>::empty()
        } else {
            ext_of(name@)
        }),
{
    if is_dir {
        String::new()
    } else {
        file_ext(name)
    }
}

/// The namespace of walk checkpoints in the checkpoint store.
pub open spec fn walk_key_prefix() -> Seq<char> {
    seq!['w', 'a', 'l', 'k', ':', 's', 't', 'a', 't', ':']
}

/// The checkpoint key of a root path.
pub open spec fn walk_key_of(path: Seq<char>) -> Seq<char> {
    walk_key_prefix() + path
}

/// The checkpoint key `walk:stat:<path>` of a root path.
pub fn walk_key(path: &str) -> (r: String)
    ensures
        r@ == walk_key_of(path@),
{
    let k = String::from_str("walk:stat:");
    proof {
        reveal_strlit("walk:stat:");
        assert(k@ =~= walk_key_prefix());
    }
    k.concat(path)
}

} // verus!
