//! Breadth-first discovery of the files under a root, one directory listing
//! at a time. The caller reads each directory that the walk asks for and
//! hands its entries back.

use vstd::prelude::*;
use vstd::string::StringExecFns;
use crate::text::push_char;

verus! {

/// An entry of a directory listing.
pub struct DirEntry {
    /// The entry's own name, without the directory.
    pub name: String,
    /// Whether the entry is a directory.
    pub is_dir: bool,
}

/// The mathematical value of a [`DirEntry`].
pub open spec fn entry_view(e: DirEntry) -> (Seq<char>, bool) {
    (e.name@, e.is_dir)
}

/// The views of a listing.
pub open spec fn entries_view(es: Seq<DirEntry>) -> Seq<(Seq<char>, bool)> {
    es.map_values(|e: DirEntry| entry_view(e))
}

/// A listing in the order that a stable sort by name gives.
pub uninterp spec fn sorted_by_name(es: Seq<(Seq<char>, bool)>) -> Seq<(Seq<char>, bool)>;

/// Whether name `a` comes no later than name `b`: lexicographic order on
/// code points, which is the byte order of their UTF-8 encodings.
pub open spec fn name_le(a: Seq<char>, b: Seq<char>) -> bool
    decreases a.len(),
{
    if a.len() == 0 {
        true
    } else if b.len() == 0 {
        false
    } else if a[0] != b[0] {
        (a[0] as u32) < (b[0] as u32)
    } else {
        name_le(a.drop_first(), b.drop_first())
    }
}

/// The listing holds the same entries, ordered by name.
pub open spec fn is_sorted_listing(
    sorted: Seq<(Seq<char>, bool)>,
    listing: Seq<(Seq<char>, bool)>,
) -> bool {
    &&& sorted.to_multiset() == listing.to_multiset()
    &&& forall|i: int, j: int|
        0 <= i < j < sorted.len() ==> name_le(#[trigger] sorted[i].0, #[trigger] sorted[j].0)
}

/// Relies on `slice::sort_by` comparing names with `String::cmp`: a stable
/// sort, so the result depends on the listing alone; it holds the same
/// entries, in the byte order of their names.
#[verifier::external_body]
fn sort_entries(es: &mut Vec<DirEntry>)
    ensures
        entries_view(final(es)@) == sorted_by_name(entries_view(old(es)@)),
        is_sorted_listing(entries_view(final(es)@), entries_view(old(es)@)),
        final(es)@.len() == old(es)@.len(),
{
    es.sort_by(|a, b| a.name.cmp(&b.name))
}

/// The path of entry `name` inside directory `dir`; the root is the empty path.
pub open spec fn child_path(dir: Seq<char>, name: Seq<char>) -> Seq<char> {
    if dir.len() == 0 {
        name
    } else {
        dir + seq!['/'] + name
    }
}

/// The paths of the entries that are directories (`dirs`) or files (`!dirs`), in order.
pub open spec fn child_paths(dir: Seq<char>, es: Seq<(Seq<char>, bool)>, dirs: bool) -> Seq<
    Seq<char>,
>
    decreases es.len(),
{
    if es.len() == 0 {
        Seq::empty()
    } else if es.last().1 == dirs {
        child_paths(dir, es.drop_last(), dirs).push(child_path(dir, es.last().0))
    } else {
        child_paths(dir, es.drop_last(), dirs)
    }
}

/// A walk in progress: the directories still to read, first in first out,
/// and the files found so far.
pub struct DirectoryWalk {
    queue: Vec<String>,
    head: usize,
    files: Vec<String>,
}

impl DirectoryWalk {
    /// The directories still to read, in order.
    pub closed spec fn pending(&self) -> Seq<Seq<char>> {
        self.queue@.subrange(self.head as int, self.queue@.len() as int).map_values(
            |s: String| s@,
        )
    }

    /// The files found so far, in order.
    pub closed spec fn found(&self) -> Seq<Seq<char>> {
        self.files@.map_values(|s: String| s@)
    }

    /// The head of the queue lies within it.
    pub closed spec fn wf(&self) -> bool {
        self.head <= self.queue@.len()
    }

    /// A walk that starts at the root.
    pub fn new() -> (r: DirectoryWalk)
        ensures
            r.wf(),
            r.pending() == seq![Seq::<char>::empty()],
            r.found() == Seq::<Seq<char>>::empty(),
    {
        let r = DirectoryWalk { queue: vec![String::new()], head: 0, files: Vec::new() };
        assert(r.pending() =~= seq![Seq::<char>::empty()]);
        assert(r.found() =~= Seq::<Seq<char>>::empty());
        r
    }

    /// The next directory to read, taken off the queue; `None` when the walk is done.
    pub fn next_directory(&mut self) -> (r: Option<String>)
        requires
            old(self).wf(),
        ensures
            final(self).wf(),
            final(self).found() == old(self).found(),
            match r {
                Some(d) => old(self).pending().len() > 0 && d@ == old(self).pending()[0]
                    && final(self).pending() == old(self).pending().drop_first(),
                None => old(self).pending().len() == 0 && final(self).pending() == old(
                    self,
                ).pending(),
            },
    {
        if self.head < self.queue.len() {
            let d = self.queue[self.head].clone();
            let ghost p = self.pending();
            assert(p[0] == self.queue@[self.head as int]@);
            self.head = self.head + 1;
            assert(self.pending() =~= p.drop_first());
            Some(d)
        } else {
            None
        }
    }

    /// Records the listing of `dir`, in name order: its directories join the
    /// end of the queue, its files the files found.
    pub fn visit(&mut self, dir: &str, entries: Vec<DirEntry>)
        requires
            old(self).wf(),
        ensures
            final(self).wf(),
            is_sorted_listing(sorted_by_name(entries_view(entries@)), entries_view(entries@)),
            final(self).pending() == old(self).pending() + child_paths(
                dir@,
                sorted_by_name(entries_view(entries@)),
                true,
            ),
            final(self).found() == old(self).found() + child_paths(
                dir@,
                sorted_by_name(entries_view(entries@)),
                false,
            ),
    {
        let mut entries = entries;
        sort_entries(&mut entries);
        let ghost es = entries_view(entries@);
        let ghost p0 = self.pending();
        let ghost f0 = self.found();
        let mut k: usize = 0;
        while k < entries.len()
            invariant
                k <= entries@.len(),
                es == entries_view(entries@),
                self.wf(),
                self.pending() == p0 + child_paths(dir@, es.take(k as int), true),
                self.found() == f0 + child_paths(dir@, es.take(k as int), false),
            decreases entries.len() - k,
        {
            let entry = &entries[k];
            assert(es.take(k + 1).drop_last() =~= es.take(k as int));
            assert(es.take(k + 1).last() == entry_view(*entry));
            let mut path = String::new();
            path.append(dir);
            if !dir.is_empty() {
                push_char(&mut path, '/');
            }
            path.append(entry.name.as_str());
            assert(path@ =~= child_path(dir@, entry.name@));
            let ghost pend = self.pending();
            let ghost fnd = self.found();
            if entry.is_dir {
                self.queue.push(path);
                assert(self.pending() =~= pend.push(path@));
                assert(self.found() =~= fnd);
            } else {
                self.files.push(path);
                assert(self.found() =~= fnd.push(path@));
                assert(self.pending() =~= pend);
            }
            k = k + 1;
        }
        assert(es.take(k as int) =~= es);
    }

    /// The files found so far, in the order they were found.
    pub fn files(&self) -> (r: &Vec<String>)
        ensures
            r@.map_values(|s: String| s@) == self.found(),
    {
        &self.files
    }
}

} // verus!
