//! Directory trees as values: what a walk finds at each path.

use vstd::prelude::*;

verus! {

/// Why a walk stopped.
#[derive(Debug, Clone, Copy, PartialEq, Eq, Structural)]
pub enum IoError {
    /// The path visited is not a directory.
    NotADirectory,
    /// Reading a directory failed; the operating system's error code is kept.
    IoFailure(i32),
}

/// One child of a directory.
#[derive(Debug)]
pub enum Entry {
    /// A non-directory entry, by its bare name.
    File(String),
    /// A subdirectory.
    Dir(DirNode),
}

/// What reading a path as a directory yields.
#[derive(Debug)]
pub enum DirState {
    /// The path is not a directory, or nothing is there.
    NotADirectory,
    /// Reading broke off with an error code after the entries in `seen`.
    Broken { seen: Vec<Entry>, code: i32 },
    /// All children, in the order in which they were enumerated.
    Listed(Vec<Entry>),
}

/// A path together with what a visit finds there.
#[derive(Debug)]
pub struct DirNode {
    /// The path as the file system has it.
    pub path: String,
    /// What reading it yields.
    pub state: DirState,
}

/// An [`Entry`] as mathematics sees it.
pub enum EntryView {
    File(Seq<char>),
    Dir(NodeView),
}

/// A [`DirState`] as mathematics sees it.
pub enum StateView {
    NotADirectory,
    Broken { seen: Seq<EntryView>, code: i32 },
    Listed(Seq<EntryView>),
}

/// A [`DirNode`] as mathematics sees it.
pub struct NodeView {
    pub path: Seq<char>,
    pub state: StateView,
}

/// The view of a node: the view of its path and of its state.
pub open spec fn node_view(n: DirNode) -> NodeView
    decreases n,
{
    NodeView { path: n.path@, state: state_view(n.state) }
}

/// The view of a state: the views of its entries, in order.
pub open spec fn state_view(s: DirState) -> StateView
    decreases s,
{
    match s {
        DirState::NotADirectory => StateView::NotADirectory,
        DirState::Broken { seen, code } => StateView::Broken { seen: entries_view(seen@), code },
        DirState::Listed(entries) => StateView::Listed(entries_view(entries@)),
    }
}

/// The views of the entries, in order.
pub open spec fn entries_view(es: Seq<Entry>) -> Seq<EntryView>
    decreases es,
{
    Seq::new(es.len(), |i: int| if 0 <= i < es.len() { entry_view(es[i]) } else { arbitrary() })
}

/// The view of an entry: a file's name, or a subdirectory's view.
pub open spec fn entry_view(e: Entry) -> EntryView
    decreases e,
{
    match e {
        Entry::File(name) => EntryView::File(name@),
        Entry::Dir(node) => EntryView::Dir(node_view(node)),
    }
}

impl View for Entry {
    type V = EntryView;

    open spec fn view(&self) -> EntryView {
        entry_view(*self)
    }
}

impl View for DirState {
    type V = StateView;

    open spec fn view(&self) -> StateView {
        state_view(*self)
    }
}

impl View for DirNode {
    type V = NodeView;

    open spec fn view(&self) -> NodeView {
        node_view(*self)
    }
}

/// The names of the non-directory entries among `entries`, in order.
pub open spec fn file_names(entries: Seq<EntryView>) -> Seq<Seq<char>>
    decreases entries.len(),
{
    if entries.len() == 0 {
        Seq::empty()
    } else {
        match entries.last() {
            EntryView::File(name) => file_names(entries.drop_last()).push(name),
            EntryView::Dir(_) => file_names(entries.drop_last()),
        }
    }
}

/// One entry more: its name joins the file names if it is a file.
pub proof fn lemma_file_names_step(entries: Seq<EntryView>, k: int)
    requires
        0 <= k < entries.len(),
    ensures
        file_names(entries.take(k + 1)) == match entries[k] {
            EntryView::File(name) => file_names(entries.take(k)).push(name),
            EntryView::Dir(_) => file_names(entries.take(k)),
        },
{
    assert(entries.take(k + 1).drop_last() == entries.take(k));
}

/// A prefix of the entries holds no more files than all of them.
pub proof fn lemma_file_names_prefix(entries: Seq<EntryView>, k: int)
    requires
        0 <= k <= entries.len(),
    ensures
        file_names(entries.take(k)).len() <= file_names(entries).len(),
    decreases entries.len() - k,
{
    if k < entries.len() {
        lemma_file_names_step(entries, k);
        lemma_file_names_prefix(entries, k + 1);
    } else {
        assert(entries.take(k) == entries);
    }
}

/// Whether every directory of the tree was listed in full.
pub open spec fn sound(node: NodeView) -> bool
    decreases node,
{
    match node.state {
        StateView::Listed(entries) => forall|i: int|
            0 <= i < entries.len() ==> match #[trigger] entries[i] {
                EntryView::Dir(sub) => sound(sub),
                EntryView::File(_) => true,
            },
        _ => false,
    }
}

/// The names of all non-directory entries of the tree: those of the directory itself,
/// then those of each subdirectory's tree, in the order of the listing. Of a listing
/// that broke off, the entries seen count.
pub open spec fn tree_files(node: NodeView) -> Seq<Seq<char>>
    decreases node, 0nat,
{
    match node.state {
        StateView::NotADirectory => Seq::empty(),
        StateView::Broken { seen, code } => file_names(seen) + files_below(seen, 0),
        StateView::Listed(entries) => file_names(entries) + files_below(entries, 0),
    }
}

/// The names of all non-directory entries in the trees of the subdirectories among
/// `entries[from..]`.
pub open spec fn files_below(entries: Seq<EntryView>, from: int) -> Seq<Seq<char>>
    decreases entries, entries.len() - from,
{
    if from < 0 || from >= entries.len() {
        Seq::empty()
    } else {
        match entries[from] {
            EntryView::File(_) => files_below(entries, from + 1),
            EntryView::Dir(sub) => tree_files(sub) + files_below(entries, from + 1),
        }
    }
}

/// The number of directories of the tree, the root among them.
pub open spec fn tree_dirs(node: NodeView) -> nat
    decreases node, 0nat,
{
    match node.state {
        StateView::NotADirectory => 0,
        StateView::Broken { seen, code } => 1 + dirs_below(seen, 0),
        StateView::Listed(entries) => 1 + dirs_below(entries, 0),
    }
}

/// The number of directories in the trees of the subdirectories among `entries[from..]`.
pub open spec fn dirs_below(entries: Seq<EntryView>, from: int) -> nat
    decreases entries, entries.len() - from,
{
    if from < 0 || from >= entries.len() {
        0
    } else {
        match entries[from] {
            EntryView::File(_) => dirs_below(entries, from + 1),
            EntryView::Dir(sub) => tree_dirs(sub) + dirs_below(entries, from + 1),
        }
    }
}

} // verus!
