//! The tree of measured paths and the memoized total of each directory.

use crate::size::{
    all_present, brotli_parts, gzip_parts, lemma_sum_concat, lemma_sum_prefix, lemma_sum_push,
    present_values, reduce, representable, sum_of, uncompressed_parts, FileSizeInfo, Running,
    Totals,
};
use once_cell::sync::OnceCell;
use vstd::prelude::*;

verus! {

/// A tree of paths as a mathematical value: what was measured, without the
/// totals that have been cached so far.
pub enum Tree {
    File { path: Seq<char>, size: Totals },
    Folder { path: Seq<char>, files: Seq<Tree> },
}

impl Tree {
    /// The path of the node.
    pub open spec fn path(self) -> Seq<char> {
        match self {
            Tree::File { path, .. } => path,
            Tree::Folder { path, .. } => path,
        }
    }
}

/// The totals of the entries of a directory, in listing order.
pub open spec fn totals_of(files: Seq<Tree>) -> Seq<Totals>
    decreases files, 0nat,
{
    Seq::new(
        files.len(),
        |i: int|
            if 0 <= i < files.len() {
                total_of(files[i])
            } else {
                arbitrary()
            },
    )
}

/// The total of a tree: a file's own measurement, a directory's reduction of
/// the totals of its entries.
pub open spec fn total_of(tree: Tree) -> Totals
    decreases tree, 1nat,
{
    match tree {
        Tree::File { size, .. } => size,
        Tree::Folder { files, .. } => reduce(totals_of(files)),
    }
}

/// Whether the total of every node of a tree can be held in machine integers.
pub open spec fn fits(tree: Tree) -> bool
    decreases tree,
{
    match tree {
        Tree::File { size, .. } => representable(size),
        Tree::Folder { files, .. } => {
            &&& representable(total_of(tree))
            &&& forall|i: int| 0 <= i < files.len() ==> fits(#[trigger] files[i])
        },
    }
}

/// The uncompressed total of a directory is the sum of the uncompressed
/// totals of its entries.
pub proof fn lemma_folder_uncompressed_is_sum(path: Seq<char>, files: Seq<Tree>)
    ensures
        total_of(Tree::Folder { path, files }).uncompressed == sum_of(
            Seq::new(files.len(), |i: int| total_of(files[i]).uncompressed),
        ),
{
    assert(uncompressed_parts(totals_of(files)) =~= Seq::new(
        files.len(),
        |i: int| total_of(files[i]).uncompressed,
    ));
}

/// The uncompressed sizes of the files of a tree, at any depth, in listing order.
pub open spec fn file_sizes(tree: Tree) -> Seq<nat>
    decreases tree, 0nat,
{
    match tree {
        Tree::File { size, .. } => seq![size.uncompressed],
        Tree::Folder { files, .. } => file_sizes_among(files, files.len() as int),
    }
}

/// The uncompressed sizes of the files under the first `n` of the entries.
pub open spec fn file_sizes_among(files: Seq<Tree>, n: int) -> Seq<nat>
    decreases files, n,
{
    if 0 < n <= files.len() {
        file_sizes_among(files, n - 1) + file_sizes(files[n - 1])
    } else {
        Seq::empty()
    }
}

/// The uncompressed total of a tree is the sum of the sizes of all the files
/// in it, at any depth.
pub proof fn lemma_uncompressed_is_sum_of_files(tree: Tree)
    ensures
        total_of(tree).uncompressed == sum_of(file_sizes(tree)),
    decreases tree, 0nat,
{
    match tree {
        Tree::File { size, .. } => {
            lemma_sum_push(Seq::<nat>::empty(), size.uncompressed);
            assert(seq![size.uncompressed] =~= Seq::<nat>::empty().push(size.uncompressed));
        },
        Tree::Folder { files, .. } => {
            lemma_sum_of_files_among(files, files.len() as int);
            let parts = uncompressed_parts(totals_of(files));
            assert(parts.take(files.len() as int) =~= parts);
        },
    }
}

/// The sizes of the files under the first `n` entries add up to the
/// uncompressed totals of those entries.
pub proof fn lemma_sum_of_files_among(files: Seq<Tree>, n: int)
    requires
        0 <= n <= files.len(),
    ensures
        sum_of(file_sizes_among(files, n)) == sum_of(
            uncompressed_parts(totals_of(files)).take(n),
        ),
    decreases files, n,
{
    let parts = uncompressed_parts(totals_of(files));
    if n == 0 {
        assert(parts.take(0) =~= Seq::<nat>::empty());
    } else {
        lemma_sum_of_files_among(files, n - 1);
        lemma_uncompressed_is_sum_of_files(files[n - 1]);
        lemma_sum_concat(file_sizes_among(files, n - 1), file_sizes(files[n - 1]));
        assert(parts.take(n) =~= parts.take(n - 1).push(total_of(files[n - 1]).uncompressed));
        lemma_sum_push(parts.take(n - 1), total_of(files[n - 1]).uncompressed);
    }
}

/// A directory with at least one entry has a gzip estimate exactly where
/// every entry has one, and it is then their sum. The same holds of the
/// brotli estimate, whatever the gzip estimates are.
pub proof fn lemma_folder_estimate_iff_all_entries(path: Seq<char>, files: Seq<Tree>)
    requires
        files.len() > 0,
    ensures
        total_of(Tree::Folder { path, files }).gzip is Some <==> forall|i: int|
            0 <= i < files.len() ==> total_of(#[trigger] files[i]).gzip is Some,
        total_of(Tree::Folder { path, files }).gzip matches Some(sum) ==> sum == sum_of(
            Seq::new(files.len(), |i: int| total_of(files[i]).gzip->0),
        ),
        total_of(Tree::Folder { path, files }).brotli is Some <==> forall|i: int|
            0 <= i < files.len() ==> total_of(#[trigger] files[i]).brotli is Some,
        total_of(Tree::Folder { path, files }).brotli matches Some(sum) ==> sum == sum_of(
            Seq::new(files.len(), |i: int| total_of(files[i]).brotli->0),
        ),
{
    let totals = totals_of(files);
    let gzip = gzip_parts(totals);
    let brotli = brotli_parts(totals);
    if all_present(gzip) {
        assert forall|i: int| 0 <= i < files.len() implies total_of(
            #[trigger] files[i],
        ).gzip is Some by {
            assert(gzip[i] is Some);
        }
        assert(present_values(gzip) =~= Seq::new(
            files.len(),
            |i: int| total_of(files[i]).gzip->0,
        ));
    }
    if all_present(brotli) {
        assert forall|i: int| 0 <= i < files.len() implies total_of(
            #[trigger] files[i],
        ).brotli is Some by {
            assert(brotli[i] is Some);
        }
        assert(present_values(brotli) =~= Seq::new(
            files.len(),
            |i: int| total_of(files[i]).brotli->0,
        ));
    }
}

/// A directory without entries has the total zero, with no estimate.
pub proof fn lemma_empty_folder_total(path: Seq<char>)
    ensures
        total_of(Tree::Folder { path, files: Seq::empty() }) == (Totals {
            uncompressed: 0,
            gzip: None,
            brotli: None,
        }),
{
    assert(uncompressed_parts(totals_of(Seq::<Tree>::empty())) =~= Seq::<nat>::empty());
}

/// `once_cell::sync::OnceCell`, a cell that can be filled once. It is read
/// through a shared reference and filled through an exclusive one.
#[verifier::external_type_specification]
#[verifier::external_body]
#[verifier::reject_recursive_types(T)]
pub struct ExOnceCell<T>(OnceCell<T>);

/// What a cell holds: nothing until it is filled, then the value it was filled with.
pub uninterp spec fn cell_value(cell: OnceCell<FileSizeInfo>) -> Option<FileSizeInfo>;

/// `OnceCell::new`: the cell it creates is empty.
#[verifier::external_body]
fn cell_new() -> (cell: OnceCell<FileSizeInfo>)
    ensures
        cell_value(cell) is None,
{
    OnceCell::new()
}

/// `OnceCell::get`: a copy of the value in the cell, or `None` for an empty cell.
#[verifier::external_body]
fn cell_get(cell: &OnceCell<FileSizeInfo>) -> (value: Option<FileSizeInfo>)
    ensures
        value == cell_value(*cell),
{
    cell.get().copied()
}

/// `OnceCell::set`: fills an empty cell, and leaves a full cell as it was.
/// The result says whether the cell was empty.
#[verifier::external_body]
fn cell_set(cell: &mut OnceCell<FileSizeInfo>, value: FileSizeInfo) -> (filled: bool)
    ensures
        filled <==> cell_value(*old(cell)) is None,
        filled ==> cell_value(*final(cell)) == Some(value),
        !filled ==> cell_value(*final(cell)) == cell_value(*old(cell)),
    no_unwind
{
    cell.set(value).is_ok()
}

/// A measured path: a file with its measurement, or a directory with its entries.
#[derive(Debug)]
pub enum PathData {
    File { name: String, size: FileSizeInfo },
    Folder(Folder),
}

/// A directory: its path, its entries in listing order, and its total once
/// that has been computed. Nothing but `total_size` fills the cache, so a
/// cached total is always the total of the entries.
#[derive(Debug)]
pub struct Folder {
    path: String,
    files: Vec<PathData>,
    total_size: OnceCell<FileSizeInfo>,
}

/// The trees of a sequence of nodes.
pub open spec fn trees_of(files: Seq<PathData>) -> Seq<Tree>
    decreases files, 0nat,
{
    Seq::new(
        files.len(),
        |i: int|
            if 0 <= i < files.len() {
                files[i]@
            } else {
                arbitrary()
            },
    )
}

impl View for PathData {
    type V = Tree;

    open spec fn view(&self) -> Tree
        decreases self, 1nat,
    {
        match self {
            PathData::File { name, size } => Tree::File { path: name@, size: size@ },
            PathData::Folder(folder) => folder@,
        }
    }
}

impl View for Folder {
    type V = Tree;

    open spec fn view(&self) -> Tree
        decreases self, 0nat,
    {
        Tree::Folder { path: self.path_text(), files: trees_of(self.entries()) }
    }
}

impl Folder {
    #[verifier::type_invariant]
    spec fn cache_is_sound(self) -> bool {
        cell_value(self.total_size) matches Some(total) ==> {
            &&& total@ == total_of(self@)
            &&& fits(self@)
            &&& forall|i: int| 0 <= i < self.files.len() ==> (#[trigger] self.files[i]).settled()
        }
    }

    /// The path of the directory.
    pub closed spec fn path_text(&self) -> Seq<char> {
        self.path@
    }

    /// The entries of the directory, in listing order: the nodes themselves,
    /// with what each has cached.
    pub closed spec fn entries(&self) -> Seq<PathData> {
        self.files@
    }

    /// Whether no total has been computed yet, neither of this directory nor
    /// of any directory below it.
    pub open spec fn untouched(&self) -> bool
        decreases self, 0nat,
    {
        &&& self.cached() is None
        &&& forall|i: int|
            0 <= i < self.entries().len() ==> (#[trigger] self.entries()[i]).untouched()
    }

    /// Whether the total of this directory and of every directory below it
    /// has been computed and cached.
    pub closed spec fn settled(&self) -> bool
        decreases self, 0nat,
    {
        &&& cell_value(self.total_size) is Some
        &&& forall|i: int| 0 <= i < self.files.len() ==> (#[trigger] self.files[i]).settled()
    }

    /// A directory with the given entries, whose total has not been computed yet.
    pub fn new(path: String, files: Vec<PathData>) -> (folder: Folder)
        ensures
            folder.path_text() == path@,
            folder.entries() == files@,
            folder.cached() is None,
            folder@ == (Tree::Folder { path: path@, files: trees_of(files@) }),
    {
        Folder { path, files, total_size: cell_new() }
    }

    /// The path of the directory.
    pub fn path(&self) -> (path: &str)
        ensures
            path@ == self.path_text(),
            path@ == self@.path(),
    {
        self.path.as_str()
    }

    /// The entries of the directory, in listing order.
    pub fn files(&self) -> (files: &Vec<PathData>)
        ensures
            files@ == self.entries(),
            self@ == (Tree::Folder { path: self@.path(), files: trees_of(files@) }),
    {
        &self.files
    }

    /// The total that the directory has cached, if it has been computed.
    pub closed spec fn cached(&self) -> Option<FileSizeInfo> {
        cell_value(self.total_size)
    }

    /// The total of the directory if it has been computed, without computing it.
    pub fn cached_total(&self) -> (total: Option<FileSizeInfo>)
        ensures
            total == self.cached(),
            total matches Some(t) ==> t@ == total_of(self@),
    {
        proof {
            use_type_invariant(self);
        }
        cell_get(&self.total_size)
    }

    /// The total of the directory. The first call computes it from the
    /// entries, whose own totals it asks for, and caches it; a later call
    /// reads the cache and touches nothing. `None` where a total anywhere in
    /// the tree does not fit in `usize`; this directory caches nothing then.
    pub fn total_size(&mut self) -> (total: Option<FileSizeInfo>)
        ensures
            final(self)@ == old(self)@,
            total is Some <==> fits(old(self)@),
            total matches Some(t) ==> t@ == total_of(old(self)@),
            final(self).cached() == total,
            total is Some ==> final(self).settled(),
            old(self).cached() is Some ==> *final(self) == *old(self),
        decreases old(self)@, 0nat,
    {
        proof {
            use_type_invariant(&*self);
        }
        let known = cell_get(&self.total_size);
        if known.is_some() {
            return known;
        }
        let ghost trees = trees_of(self.files@);
        let ghost totals = totals_of(trees);
        let n = self.files.len();
        let mut i: usize = 0;
        let mut uncompressed: usize = 0;
        let mut gzip = Running::Sum(0);
        let mut brotli = Running::Sum(0);
        proof {
            assert(present_values(gzip_parts(totals.take(0))) =~= Seq::<nat>::empty());
            assert(present_values(brotli_parts(totals.take(0))) =~= Seq::<nat>::empty());
            assert(uncompressed_parts(totals.take(0)) =~= Seq::<nat>::empty());
        }
        while i < n
            invariant
                n == self.files.len(),
                n == trees.len(),
                i <= n,
                trees == trees_of(old(self).files@),
                totals == totals_of(trees),
                trees_of(self.files@) == trees,
                self.path == old(self).path,
                old(self).cached() is None,
                cell_value(self.total_size) is None,
                uncompressed == sum_of(uncompressed_parts(totals.take(i as int))),
                gzip.tracks(gzip_parts(totals.take(i as int))),
                brotli.tracks(brotli_parts(totals.take(i as int))),
                forall|j: int| 0 <= j < i ==> fits(#[trigger] trees[j]),
                forall|j: int| 0 <= j < i ==> (#[trigger] self.files[j]).settled(),
            decreases n - i,
        {
            let ghost before = self.files@;
            assert(before[i as int]@ == trees[i as int]);
            let child = self.files[i].total_size();
            assert(trees_of(self.files@) =~= trees);
            let ghost seen = totals.take(i as int);
            let ghost next = totals.take(i + 1);
            proof {
                assert(uncompressed_parts(next) =~= uncompressed_parts(seen).push(
                    totals[i as int].uncompressed,
                ));
                assert(gzip_parts(next) =~= gzip_parts(seen).push(totals[i as int].gzip));
                assert(brotli_parts(next) =~= brotli_parts(seen).push(totals[i as int].brotli));
                lemma_sum_push(uncompressed_parts(seen), totals[i as int].uncompressed);
            }
            let part = match child {
                Some(part) => part,
                None => {
                    return None;
                },
            };
            uncompressed = match uncompressed.checked_add(part.uncompressed) {
                Some(sum) => sum,
                None => {
                    proof {
                        assert(uncompressed_parts(totals).take(i + 1) =~= uncompressed_parts(next));
                        lemma_sum_prefix(uncompressed_parts(totals), i + 1);
                    }
                    return None;
                },
            };
            gzip = gzip.absorb(part.gzip, Ghost(gzip_parts(seen)));
            brotli = brotli.absorb(part.brotli, Ghost(brotli_parts(seen)));
            i = i + 1;
        }
        assert(totals.take(n as int) =~= totals);
        let gzip = match gzip.finish(n, Ghost(gzip_parts(totals))) {
            Some(estimate) => estimate,
            None => {
                return None;
            },
        };
        let brotli = match brotli.finish(n, Ghost(brotli_parts(totals))) {
            Some(estimate) => estimate,
            None => {
                return None;
            },
        };
        let total = FileSizeInfo { uncompressed, gzip, brotli };
        let filled = cell_set(&mut self.total_size, total);
        assert(filled);
        Some(total)
    }
}

impl PathData {
    /// Whether the total of every directory of the tree has been computed
    /// and cached.
    pub open spec fn settled(&self) -> bool
        decreases self, 1nat,
    {
        match self {
            PathData::File { .. } => true,
            PathData::Folder(folder) => folder.settled(),
        }
    }

    /// Whether no total has been computed yet in the whole tree.
    pub open spec fn untouched(&self) -> bool
        decreases self, 1nat,
    {
        match self {
            PathData::File { .. } => true,
            PathData::Folder(folder) => folder.untouched(),
        }
    }

    /// A file with its measurement.
    pub fn file(name: String, size: FileSizeInfo) -> (node: PathData)
        ensures
            node == (PathData::File { name, size }),
            node@ == (Tree::File { path: name@, size: size@ }),
    {
        PathData::File { name, size }
    }

    /// A directory with the given entries, whose total has not been computed yet.
    pub fn folder(path: String, files: Vec<PathData>) -> (node: PathData)
        ensures
            node matches PathData::Folder(folder) && folder.path_text() == path@
                && folder.entries() == files@ && folder.cached() is None,
            node@ == (Tree::Folder { path: path@, files: trees_of(files@) }),
    {
        PathData::Folder(Folder::new(path, files))
    }

    /// The path of the node.
    pub fn path(&self) -> (path: &str)
        ensures
            path@ == self@.path(),
    {
        match self {
            PathData::File { name, .. } => name.as_str(),
            PathData::Folder(folder) => folder.path(),
        }
    }

    /// The total of the node: a file's own measurement, a directory's
    /// memoized total. `None` where a total anywhere in the tree does not fit
    /// in `usize`. Only a directory whose total is not cached yet is changed,
    /// and only in what it and the directories below it cache.
    pub fn total_size(&mut self) -> (total: Option<FileSizeInfo>)
        ensures
            final(self)@ == old(self)@,
            total is Some <==> fits(old(self)@),
            total matches Some(t) ==> t@ == total_of(old(self)@),
            total is Some ==> final(self).settled(),
            match *old(self) {
                PathData::File { .. } => *final(self) == *old(self),
                PathData::Folder(folder) => *final(self) matches PathData::Folder(after)
                    && after.cached() == total && (folder.cached() is Some ==> after == folder),
            },
        decreases old(self)@, 1nat,
    {
        match self {
            PathData::File { size, .. } => Some(*size),
            PathData::Folder(folder) => folder.total_size(),
        }
    }
}

} // verus!
