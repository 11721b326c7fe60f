//! From the listing of a directory to the ordered list of its files.

use vstd::prelude::*;
use crate::domain::error::FilesystemError;
use crate::domain::file_entry::{entry_views, FileEntry, FileEntryView, FileMetadata, PathParts};
use crate::domain::file_type::FileType;
use crate::domain::sorting::{
    is_sorted, is_sorted_descending, lemma_stable_sort, lemma_stable_sort_permutes,
    lemma_tied_reverse, reverse_entries, sort_entries, stable_sort, tied,
};
use crate::domain::text::{begins_with_dot, is_hidden_name};

verus! {

/// The key by which discovery orders the files.
#[derive(Debug, Clone, Copy, PartialEq, Eq, Structural)]
pub enum SortBy {
    Date,
    Name,
    Size,
    Type,
}

/// What one discovery run lets through, and how it orders the result.
#[derive(Debug, Clone)]
pub struct DiscoveryOptions {
    /// The categories let through; all of them where absent.
    pub file_types: Option<Vec<FileType>>,
    /// Whether entries whose name begins with a dot are let through.
    pub show_hidden: bool,
    /// The least size let through, where present.
    pub min_size: Option<u64>,
    /// The greatest size let through, where present.
    pub max_size: Option<u64>,
    /// The key of the order.
    pub sort_by: SortBy,
    /// Whether the sorted list is turned round at the end.
    pub reverse: bool,
}

/// One child of the directory, as its listing and the file system gave it.
#[derive(Debug)]
pub struct Candidate {
    /// The child's path and what its last component says.
    pub parts: PathParts,
    /// Whether the child is itself a directory.
    pub is_dir: bool,
    /// The child's metadata, or the refusal to give it.
    pub metadata: Result<FileMetadata, FilesystemError>,
}

impl Default for DiscoveryOptions {
    /// No filter, hidden entries left out, ascending by modification date.
    fn default() -> (r: DiscoveryOptions)
        ensures
            r == DiscoveryOptions::plain(),
    {
        DiscoveryOptions {
            file_types: None,
            show_hidden: false,
            min_size: None,
            max_size: None,
            sort_by: SortBy::Date,
            reverse: false,
        }
    }
}

impl DiscoveryOptions {
    /// The default options: no filter, hidden entries left out, ascending by
    /// modification date.
    pub open spec fn plain() -> DiscoveryOptions {
        DiscoveryOptions {
            file_types: None,
            show_hidden: false,
            min_size: None,
            max_size: None,
            sort_by: SortBy::Date,
            reverse: false,
        }
    }

    /// The category filter lets `t` through.
    pub open spec fn admits_type(self, t: FileType) -> bool {
        match self.file_types {
            Some(types) => types@.contains(t),
            None => true,
        }
    }

    /// Both size bounds, each inclusive, let `size` through.
    pub open spec fn admits_size(self, size: u64) -> bool {
        &&& self.min_size matches Some(least) ==> least <= size
        &&& self.max_size matches Some(most) ==> size <= most
    }

    /// The filters on category and size let the entry through.
    pub open spec fn admits(self, entry: FileEntryView) -> bool {
        self.admits_type(entry.file_type) && self.admits_size(entry.size)
    }

    /// Whether the filters on category and size let the entry through.
    pub fn accepts(&self, entry: &FileEntry) -> (r: bool)
        ensures
            r == self.admits(entry@),
    {
        let type_ok = match &self.file_types {
            Some(types) => holds_type(types, entry.file_type),
            None => true,
        };
        let min_ok = match self.min_size {
            Some(least) => least <= entry.size,
            None => true,
        };
        let max_ok = match self.max_size {
            Some(most) => entry.size <= most,
            None => true,
        };
        type_ok && min_ok && max_ok
    }
}

/// Whether `types` holds `t`.
fn holds_type(types: &Vec<FileType>, t: FileType) -> (r: bool)
    ensures
        r == types@.contains(t),
{
    let mut i: usize = 0;
    while i < types.len()
        invariant
            i <= types@.len(),
            forall|k: int| 0 <= k < i ==> types@[k] != t,
        decreases types@.len() - i,
    {
        if types[i] == t {
            return true;
        }
        i += 1;
    }
    false
}

impl Candidate {
    /// The child's name begins with a dot. A name that is absent, or not
    /// valid Unicode, is not hidden.
    pub open spec fn is_hidden(self) -> bool {
        match self.parts.file_name {
            Some(name) => begins_with_dot(name@),
            None => false,
        }
    }

    /// The entry of the child, where the file system gave its metadata.
    pub open spec fn entry(self) -> FileEntryView
        recommends
            self.metadata is Ok,
    {
        self.parts.entry(self.metadata->Ok_0)
    }

    /// Discovery under the options `o` lets the child through: it is no
    /// directory, it is not hidden unless hidden entries are shown, the file
    /// system gave its metadata, and the filters admit its entry.
    pub open spec fn is_selected(self, o: DiscoveryOptions) -> bool {
        &&& !self.is_dir
        &&& o.show_hidden || !self.is_hidden()
        &&& self.metadata is Ok
        &&& o.admits(self.entry())
    }

    /// The child's entry where discovery lets the child through, nothing
    /// where it does not.
    pub fn select(self, options: &DiscoveryOptions) -> (r: Option<FileEntry>)
        ensures
            self.is_selected(*options) ==> r is Some && r->Some_0@ == self.entry(),
            !self.is_selected(*options) ==> r is None,
    {
        if self.is_dir {
            return None;
        }
        if !options.show_hidden {
            let hidden = match &self.parts.file_name {
                Some(name) => is_hidden_name(name.as_str()),
                None => false,
            };
            if hidden {
                return None;
            }
        }
        match FileEntry::from_path(self.parts, self.metadata) {
            Ok(entry) => {
                if options.accepts(&entry) {
                    Some(entry)
                } else {
                    None
                }
            },
            Err(_) => None,
        }
    }
}

/// The test by which discovery under `o` picks candidates.
pub open spec fn selection(o: DiscoveryOptions) -> spec_fn(Candidate) -> bool {
    |c: Candidate| c.is_selected(o)
}

/// The step from a candidate to its entry.
pub open spec fn to_entry() -> spec_fn(Candidate) -> FileEntryView {
    |c: Candidate| c.entry()
}

/// The entries of the candidates that discovery under `o` lets through, in
/// the order of the listing.
pub open spec fn selected(candidates: Seq<Candidate>, o: DiscoveryOptions) -> Seq<FileEntryView> {
    candidates.filter(selection(o)).map_values(to_entry())
}

/// The entries in ascending order of the key `by`, entries of equal key in
/// the order in which they came; the whole turned round where `reverse` is
/// set.
pub open spec fn arranged(entries: Seq<FileEntryView>, by: SortBy, reverse: bool) -> Seq<
    FileEntryView,
> {
    if reverse {
        stable_sort(by, entries).reverse()
    } else {
        stable_sort(by, entries)
    }
}

/// What discovery under `o` makes of a listing.
pub open spec fn discovered(candidates: Seq<Candidate>, o: DiscoveryOptions) -> Seq<
    FileEntryView,
> {
    arranged(selected(candidates, o), o.sort_by, o.reverse)
}

/// The selection from a listing with one more candidate at its end.
pub proof fn lemma_selected_push(candidates: Seq<Candidate>, c: Candidate, o: DiscoveryOptions)
    ensures
        selected(candidates.push(c), o) == if c.is_selected(o) {
            selected(candidates, o).push(c.entry())
        } else {
            selected(candidates, o)
        },
{
    reveal(Seq::filter);
    let longer = candidates.push(c);
    assert(longer.drop_last() =~= candidates);
    if c.is_selected(o) {
        assert(selected(longer, o) =~= selected(candidates, o).push(c.entry()));
    }
}

/// An entry is among the selected ones exactly when it is the entry of a
/// candidate of the listing that discovery lets through.
pub proof fn lemma_selected_members(candidates: Seq<Candidate>, o: DiscoveryOptions)
    ensures
        forall|e: FileEntryView|
            selected(candidates, o).contains(e) <==> exists|k: int|
                0 <= k < candidates.len() && #[trigger] candidates[k].is_selected(o)
                    && candidates[k].entry() == e,
    decreases candidates.len(),
{
    if candidates.len() == 0 {
        reveal(Seq::filter);
        assert(selected(candidates, o) =~= Seq::<FileEntryView>::empty());
    } else {
        let head = candidates.drop_last();
        let c = candidates.last();
        lemma_selected_members(head, o);
        lemma_selected_push(head, c, o);
        assert(candidates =~= head.push(c));
        let now = selected(candidates, o);
        let was = selected(head, o);
        assert forall|e: FileEntryView| now.contains(e) <==> exists|k: int|
            0 <= k < candidates.len() && #[trigger] candidates[k].is_selected(o)
                && candidates[k].entry() == e by {
            if now.contains(e) {
                let i = choose|i: int| 0 <= i < now.len() && now[i] == e;
                if i < was.len() {
                    assert(was[i] == e);
                    assert(was.contains(e));
                    let k = choose|k: int|
                        0 <= k < head.len() && #[trigger] head[k].is_selected(o) && head[k].entry()
                            == e;
                    assert(candidates[k].is_selected(o) && candidates[k].entry() == e);
                } else {
                    let k = candidates.len() - 1;
                    assert(candidates[k].is_selected(o) && candidates[k].entry() == e);
                }
            }
            if exists|k: int|
                0 <= k < candidates.len() && #[trigger] candidates[k].is_selected(o)
                    && candidates[k].entry() == e {
                let k = choose|k: int|
                    0 <= k < candidates.len() && #[trigger] candidates[k].is_selected(o)
                        && candidates[k].entry() == e;
                if k < head.len() {
                    assert(head[k].is_selected(o) && head[k].entry() == e);
                    assert(was.contains(e));
                    let i = choose|i: int| 0 <= i < was.len() && was[i] == e;
                    assert(now[i] == e);
                } else {
                    assert(now[now.len() - 1] == e);
                }
            }
        }
    }
}

/// Discovery neither invents nor loses an entry: what it returns holds an
/// entry exactly when the entry is that of a candidate that it lets
/// through, and holds as many entries as it lets candidates through.
pub proof fn lemma_discovered_members(candidates: Seq<Candidate>, o: DiscoveryOptions)
    ensures
        forall|e: FileEntryView|
            discovered(candidates, o).contains(e) <==> exists|k: int|
                0 <= k < candidates.len() && #[trigger] candidates[k].is_selected(o)
                    && candidates[k].entry() == e,
        discovered(candidates, o).len() == candidates.filter(selection(o)).len(),
{
    let picked = selected(candidates, o);
    let sorted = stable_sort(o.sort_by, picked);
    let out = discovered(candidates, o);
    lemma_selected_members(candidates, o);
    lemma_stable_sort_permutes(o.sort_by, picked);
    lemma_stable_sort(o.sort_by, picked);
    assert forall|e: FileEntryView| out.contains(e) <==> exists|k: int|
        0 <= k < candidates.len() && #[trigger] candidates[k].is_selected(o)
            && candidates[k].entry() == e by {
        if o.reverse {
            if out.contains(e) {
                let i = choose|i: int| 0 <= i < out.len() && out[i] == e;
                assert(sorted[sorted.len() - 1 - i] == e);
            }
            if sorted.contains(e) {
                let i = choose|i: int| 0 <= i < sorted.len() && sorted[i] == e;
                assert(out[sorted.len() - 1 - i] == e);
            }
        }
        assert(out.contains(e) <==> sorted.contains(e));
        assert(sorted.contains(e) <==> picked.contains(e));
    }
}

/// Discovery never returns a directory, whatever the options: each entry
/// that it returns is the entry of a candidate that is no directory.
pub proof fn lemma_no_directory_discovered(
    candidates: Seq<Candidate>,
    o: DiscoveryOptions,
    i: int,
)
    requires
        0 <= i < discovered(candidates, o).len(),
    ensures
        exists|k: int|
            0 <= k < candidates.len() && !(#[trigger] candidates[k]).is_dir
                && candidates[k].metadata is Ok && candidates[k].entry() == discovered(
                candidates,
                o,
            )[i],
{
    let e = discovered(candidates, o)[i];
    lemma_discovered_members(candidates, o);
    assert(discovered(candidates, o).contains(e));
    let k = choose|k: int|
        0 <= k < candidates.len() && #[trigger] candidates[k].is_selected(o)
            && candidates[k].entry() == e;
    assert(!candidates[k].is_dir);
}

/// A listing of directories only gives no entry.
pub proof fn lemma_directories_give_nothing(candidates: Seq<Candidate>, o: DiscoveryOptions)
    requires
        forall|k: int| 0 <= k < candidates.len() ==> (#[trigger] candidates[k]).is_dir,
    ensures
        discovered(candidates, o).len() == 0,
{
    if discovered(candidates, o).len() > 0 {
        lemma_no_directory_discovered(candidates, o, 0);
    }
}

/// Where hidden entries are not shown, discovery returns no entry whose
/// name begins with a dot.
pub proof fn lemma_hidden_left_out(candidates: Seq<Candidate>, o: DiscoveryOptions, i: int)
    requires
        !o.show_hidden,
        0 <= i < discovered(candidates, o).len(),
    ensures
        !begins_with_dot(discovered(candidates, o)[i].name),
{
    let e = discovered(candidates, o)[i];
    lemma_discovered_members(candidates, o);
    assert(discovered(candidates, o).contains(e));
    let k = choose|k: int|
        0 <= k < candidates.len() && #[trigger] candidates[k].is_selected(o)
            && candidates[k].entry() == e;
    reveal_strlit("unknown");
    assert(!candidates[k].is_hidden());
}

/// Where hidden entries are shown, a name that begins with a dot keeps no
/// file out: discovery returns the entry of every candidate that is no
/// directory, whose metadata the file system gave, and whose entry the
/// filters on category and size admit.
pub proof fn lemma_hidden_shown(candidates: Seq<Candidate>, o: DiscoveryOptions, k: int)
    requires
        o.show_hidden,
        0 <= k < candidates.len(),
        !candidates[k].is_dir,
        candidates[k].metadata is Ok,
        o.admits(candidates[k].entry()),
    ensures
        discovered(candidates, o).contains(candidates[k].entry()),
{
    lemma_discovered_members(candidates, o);
    assert(candidates[k].is_selected(o));
}

/// Discovery orders by the key, and is stable. Without `reverse` the
/// result ascends, and entries of equal key stand in the order of the
/// listing; with `reverse` the result descends, and entries of equal key
/// stand in the opposite of the order of the listing.
pub proof fn lemma_discovery_stable(candidates: Seq<Candidate>, o: DiscoveryOptions)
    ensures
        !o.reverse ==> is_sorted(o.sort_by, discovered(candidates, o)),
        !o.reverse ==> forall|x: FileEntryView| #[trigger]
            tied(o.sort_by, discovered(candidates, o), x) == tied(
                o.sort_by,
                selected(candidates, o),
                x,
            ),
        o.reverse ==> is_sorted_descending(o.sort_by, discovered(candidates, o)),
        o.reverse ==> forall|x: FileEntryView| #[trigger]
            tied(o.sort_by, discovered(candidates, o), x) == tied(
                o.sort_by,
                selected(candidates, o),
                x,
            ).reverse(),
{
    let picked = selected(candidates, o);
    let sorted = stable_sort(o.sort_by, picked);
    lemma_stable_sort(o.sort_by, picked);
    if o.reverse {
        assert forall|x: FileEntryView| #[trigger]
            tied(o.sort_by, discovered(candidates, o), x) == tied(
                o.sort_by,
                picked,
                x,
            ).reverse() by {
            lemma_tied_reverse(o.sort_by, sorted, x);
            assert(tied(o.sort_by, sorted, x) == tied(o.sort_by, picked, x));
        }
    }
}

/// Filters and orders the children of a directory. A listing that the file
/// system refused is handed on as the failure it was.
pub fn discover_files_with_options(
    listing: Result<Vec<Candidate>, FilesystemError>,
    options: &DiscoveryOptions,
) -> (r: Result<Vec<FileEntry>, FilesystemError>)
    ensures
        match listing {
            Ok(candidates) => r is Ok && entry_views(r->Ok_0@) == discovered(
                candidates@,
                *options,
            ),
            Err(e) => r == Err::<Vec<FileEntry>, FilesystemError>(e),
        },
{
    let candidates = match listing {
        Ok(candidates) => candidates,
        Err(e) => {
            return Err(e);
        },
    };
    let ghost all = candidates@;
    let mut files: Vec<FileEntry> = Vec::new();
    proof {
        reveal(Seq::filter);
        assert(entry_views(files@) =~= selected(all.take(0), *options));
    }
    for candidate in iter: candidates
        invariant
            iter.seq() == all,
            entry_views(files@) == selected(all.take(iter.index() as int), *options),
    {
        let ghost before = entry_views(files@);
        proof {
            lemma_selected_push(all.take(iter.index() as int), candidate, *options);
            assert(all.take(iter.index() + 1) =~= all.take(iter.index() as int).push(candidate));
        }
        match candidate.select(options) {
            Some(entry) => {
                files.push(entry);
                proof {
                    assert(entry_views(files@) =~= before.push(entry@));
                }
            },
            None => {},
        }
    }
    proof {
        assert(all.take(all.len() as int) =~= all);
    }
    let sorted = sort_entries(options.sort_by, files);
    if options.reverse {
        Ok(reverse_entries(sorted))
    } else {
        Ok(sorted)
    }
}

/// Filters and orders the children of a directory under the default
/// options.
pub fn discover_files(listing: Result<Vec<Candidate>, FilesystemError>) -> (r: Result<
    Vec<FileEntry>,
    FilesystemError,
>)
    ensures
        match listing {
            Ok(candidates) => r is Ok && entry_views(r->Ok_0@) == discovered(
                candidates@,
                DiscoveryOptions::plain(),
            ),
            Err(e) => r == Err::<Vec<FileEntry>, FilesystemError>(e),
        },
{
    let options = DiscoveryOptions::default();
    discover_files_with_options(listing, &options)
}

} // verus!
