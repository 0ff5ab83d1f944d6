//! The file systems that documents are read from: an in-memory one, kept
//! here, and the local one, whose reads and writes the program performs.

use vstd::prelude::*;

use crate::name_map::{names_of, NameMap};

verus! {

/// A file system held in memory: the content of each path.
#[derive(Debug)]
pub struct MemoryFS {
    files: NameMap<String>,
}

impl View for MemoryFS {
    type V = Map<Seq<char>, Seq<char>>;

    closed spec fn view(&self) -> Map<Seq<char>, Seq<char>> {
        self.files@
    }
}

impl Default for MemoryFS {
    fn default() -> (r: Self)
        ensures
            r@ == Map::<Seq<char>, Seq<char>>::empty(),
    {
        Self::new()
    }
}

/// Whether `prefix` begins `s`.
pub open spec fn begins_with(s: Seq<char>, prefix: Seq<char>) -> bool {
    prefix.len() <= s.len() && s.take(prefix.len() as int) == prefix
}

/// The paths of `ps` that begin with `prefix`, in order.
pub open spec fn prefixed(ps: Seq<Seq<char>>, prefix: Seq<char>) -> Seq<Seq<char>>
    decreases ps.len(),
{
    if ps.len() == 0 {
        Seq::empty()
    } else {
        prefixed(ps.drop_last(), prefix) + (if begins_with(ps.last(), prefix) {
            seq![ps.last()]
        } else {
            Seq::empty()
        })
    }
}

/// The paths of `ps` that begin with `prefix` are those, and, where no
/// path repeats in `ps`, none repeats among them.
pub proof fn lemma_prefixed(ps: Seq<Seq<char>>, prefix: Seq<char>)
    ensures
        forall|p: Seq<char>|
            #[trigger] prefixed(ps, prefix).contains(p) <==> ps.contains(p) && begins_with(p, prefix),
        ps.no_duplicates() ==> prefixed(ps, prefix).no_duplicates(),
    decreases ps.len(),
{
    if ps.len() > 0 {
        let init = ps.drop_last();
        lemma_prefixed(init, prefix);
        let d = prefixed(init, prefix);
        let tail = if begins_with(ps.last(), prefix) {
            seq![ps.last()]
        } else {
            Seq::<Seq<char>>::empty()
        };
        assert(prefixed(ps, prefix) == d + tail);
        assert forall|p: Seq<char>|
            #[trigger] prefixed(ps, prefix).contains(p) <==> ps.contains(p) && begins_with(p, prefix) by {
            if (d + tail).contains(p) {
                let j = choose|j: int| 0 <= j < (d + tail).len() && (d + tail)[j] == p;
                if j < d.len() {
                    assert(d.contains(p));
                    let b = choose|b: int| 0 <= b < init.len() && init[b] == p;
                    assert(ps[b] == p);
                } else {
                    assert(ps[ps.len() - 1] == p);
                }
            }
            if ps.contains(p) && begins_with(p, prefix) {
                let b = choose|b: int| 0 <= b < ps.len() && ps[b] == p;
                if b < ps.len() - 1 {
                    assert(init[b] == p);
                    assert(d.contains(p));
                    let j = choose|j: int| 0 <= j < d.len() && d[j] == p;
                    assert((d + tail)[j] == p);
                } else {
                    assert((d + tail)[d.len() as int] == p);
                }
            }
        }
        if ps.no_duplicates() {
            assert(init.no_duplicates()) by {
                assert forall|a: int, b: int| 0 <= a < init.len() && 0 <= b < init.len() && a != b implies init[a] != init[b] by {
                    assert(init[a] == ps[a] && init[b] == ps[b]);
                }
            }
            if begins_with(ps.last(), prefix) {
                assert(!d.contains(ps.last())) by {
                    if d.contains(ps.last()) {
                        assert(init.contains(ps.last()));
                        let b = choose|b: int| 0 <= b < init.len() && init[b] == ps.last();
                        assert(ps[b] == ps[ps.len() - 1]);
                    }
                }
            }
            assert forall|a: int, b: int|
                0 <= a < (d + tail).len() && 0 <= b < (d + tail).len() && a != b implies (d + tail)[a]
                    != (d + tail)[b] by {
                if a < d.len() && b < d.len() {
                } else if a >= d.len() && b >= d.len() {
                } else if a < d.len() {
                    assert(d.contains(d[a]));
                } else {
                    assert(d.contains(d[b]));
                }
            }
        }
    }
}

/// Whether `prefix` begins `s`.
fn starts_with(s: &String, prefix: &str) -> (r: bool)
    ensures
        r == begins_with(s@, prefix@),
{
    let n = prefix.unicode_len();
    let m = s.as_str().unicode_len();
    if n > m {
        return false;
    }
    let mut i: usize = 0;
    while i < n
        invariant
            i <= n <= m,
            n == prefix@.len(),
            m == s@.len(),
            forall|j: int| 0 <= j < i ==> s@[j] == prefix@[j],
        decreases n - i,
    {
        if s.as_str().get_char(i) != prefix.get_char(i) {
            return false;
        }
        i += 1;
    }
    assert(s@.take(n as int) =~= prefix@);
    true
}

impl MemoryFS {
    /// A file system with no file.
    pub fn new() -> (r: Self)
        ensures
            r@ == Map::<Seq<char>, Seq<char>>::empty(),
    {
        MemoryFS { files: NameMap::new() }
    }

    /// The content of the file at `path`, which must exist.
    pub fn read(&self, path: &str) -> (r: String)
        requires
            self@.contains_key(path@),
        ensures
            r@ == self@[path@],
    {
        match self.files.get(&String::from_str(path)) {
            Some(content) => content.clone(),
            None => String::new(),
        }
    }

    /// Makes `content` the content of the file at `path`.
    pub fn write(&mut self, path: &str, content: &str)
        ensures
            final(self)@ == old(self)@.insert(path@, content@),
    {
        self.files.insert(String::from_str(path), String::from_str(content));
    }

    /// Whether there is a file at `path`.
    pub fn has_file(&self, path: &str) -> (r: bool)
        ensures
            r == self@.contains_key(path@),
    {
        self.files.contains_key(&String::from_str(path))
    }

    /// The paths of the files whose path begins with `path`, each once, in
    /// an order that is left open.
    pub fn read_dir(&self, path: &str) -> (r: Vec<String>)
        ensures
            names_of(r@).no_duplicates(),
            forall|p: Seq<char>|
                #[trigger] names_of(r@).contains(p) <==> self@.contains_key(p) && begins_with(
                    p,
                    path@,
                ),
    {
        let names = self.files.keys();
        let mut entries: Vec<String> = Vec::new();
        let mut i: usize = 0;
        while i < names.len()
            invariant
                i <= names.len(),
                names_of(entries@) == prefixed(names_of(names@.take(i as int)), path@),
            decreases names.len() - i,
        {
            let ghost before = entries@;
            proof {
                assert(names_of(names@.take(i + 1)).drop_last() =~= names_of(names@.take(i as int)));
                assert(names_of(names@.take(i + 1)).last() == names@[i as int]@);
            }
            if starts_with(&names[i], path) {
                entries.push(names[i].clone());
                proof {
                    assert(names_of(entries@) =~= names_of(before).push(names@[i as int]@));
                }
            }
            i += 1;
        }
        proof {
            assert(names@.take(i as int) =~= names@);
            lemma_prefixed(names_of(names@), path@);
        }
        entries
    }
}

/// A read of a path gives back what the last write to it wrote, and a
/// write leaves the other paths as they were.
pub proof fn law_read_after_write(
    files: Map<Seq<char>, Seq<char>>,
    path: Seq<char>,
    content: Seq<char>,
    other: Seq<char>,
)
    requires
        other != path,
    ensures
        files.insert(path, content).contains_key(path),
        files.insert(path, content)[path] == content,
        files.insert(path, content).contains_key(other) == files.contains_key(other),
        files.contains_key(other) ==> files.insert(path, content)[other] == files[other],
{
}

/// The local file system, whose reads and writes the program performs.
#[derive(Debug)]
pub struct LocalFs {}

impl Default for LocalFs {
    fn default() -> (r: Self) {
        Self::new()
    }
}

impl LocalFs {
    /// The local file system.
    pub fn new() -> (r: Self) {
        LocalFs {}
    }
}

} // verus!
