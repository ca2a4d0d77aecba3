//! What holds of every walk: the counters, the files and the directories told.

use crate::nav::NavView;
use crate::pattern::{in_store, is_target};
use crate::sep::normalized;
use crate::tree::{
    dirs_below, file_names, files_below, sound, tree_dirs, tree_files, EntryView, NodeView,
    StateView,
};
use crate::walk::{
    file_notices, keep_targets, notices_for, shown, targets, walk, walk_subdirs, Config, Notice,
};
use vstd::prelude::*;

verus! {

/// The names of the files in `notices`, in order.
pub open spec fn files_told(notices: Seq<Notice>) -> Seq<Seq<char>>
    decreases notices.len(),
{
    if notices.len() == 0 {
        Seq::empty()
    } else {
        match notices.last() {
            Notice::File(name) => files_told(notices.drop_last()).push(name),
            Notice::Dir(_) => files_told(notices.drop_last()),
        }
    }
}

/// The paths of the directories in `notices`, in order.
pub open spec fn dirs_told(notices: Seq<Notice>) -> Seq<Seq<char>>
    decreases notices.len(),
{
    if notices.len() == 0 {
        Seq::empty()
    } else {
        match notices.last() {
            Notice::Dir(path) => dirs_told(notices.drop_last()).push(path),
            Notice::File(_) => dirs_told(notices.drop_last()),
        }
    }
}

/// The directories of the tree that a walk shows, by their normalized paths, in the order
/// of the walk: with `cfg.hide` those that hold a target file themselves, else all.
pub open spec fn shown_dirs(cfg: Config, pats: Seq<Seq<char>>, node: NodeView) -> Seq<Seq<char>>
    decreases node, 0nat,
{
    match node.state {
        StateView::Listed(entries) => {
            let below = shown_dirs_below(cfg, pats, entries, 0);
            if shown(cfg, targets(pats, entries)) {
                seq![normalized(node.path)] + below
            } else {
                below
            }
        },
        _ => Seq::empty(),
    }
}

/// The shown directories in the trees of the subdirectories among `entries[from..]`.
pub open spec fn shown_dirs_below(
    cfg: Config,
    pats: Seq<Seq<char>>,
    entries: Seq<EntryView>,
    from: int,
) -> Seq<Seq<char>>
    decreases entries, entries.len() - from,
{
    if from < 0 || from >= entries.len() {
        Seq::empty()
    } else {
        match entries[from] {
            EntryView::File(_) => shown_dirs_below(cfg, pats, entries, from + 1),
            EntryView::Dir(sub) => shown_dirs(cfg, pats, sub) + shown_dirs_below(
                cfg,
                pats,
                entries,
                from + 1,
            ),
        }
    }
}

/// What is told in a concatenation is what is told in its parts, in turn.
proof fn lemma_told_add(a: Seq<Notice>, b: Seq<Notice>)
    ensures
        files_told(a + b) == files_told(a) + files_told(b),
        dirs_told(a + b) == dirs_told(a) + dirs_told(b),
    decreases b.len(),
{
    if b.len() == 0 {
        assert(a + b == a);
    } else {
        lemma_told_add(a, b.drop_last());
        assert((a + b).drop_last() == a + b.drop_last());
    }
}

/// File notices tell of their files and of no directory.
proof fn lemma_told_of_files(names: Seq<Seq<char>>)
    ensures
        files_told(file_notices(names)) == names,
        dirs_told(file_notices(names)) == Seq::<Seq<char>>::empty(),
    decreases names.len(),
{
    if names.len() > 0 {
        lemma_told_of_files(names.drop_last());
        assert(file_notices(names).drop_last() == file_notices(names.drop_last()));
    }
}

/// What the notifications for one directory hold: its target files and, if it is
/// shown, its normalized path.
pub proof fn lemma_told_of_directory(cfg: Config, path: Seq<char>, found: Seq<Seq<char>>)
    ensures
        files_told(notices_for(cfg, path, found)) == found,
        dirs_told(notices_for(cfg, path, found)) == if shown(cfg, found) {
            seq![normalized(path)]
        } else {
            Seq::empty()
        },
{
    lemma_told_of_files(found);
    let head = seq![Notice::Dir(normalized(path))];
    lemma_told_add(head, file_notices(found));
    assert(head.drop_last() == Seq::<Notice>::empty());
    assert(files_told(head.drop_last()) == Seq::<Seq<char>>::empty());
    assert(dirs_told(head.drop_last()) == Seq::<Seq<char>>::empty());
    assert(dirs_told(head) == seq![normalized(path)]);
}

/// Picking targets goes through a concatenation.
pub proof fn lemma_keep_targets_add(pats: Seq<Seq<char>>, a: Seq<Seq<char>>, b: Seq<Seq<char>>)
    ensures
        keep_targets(pats, a + b) == keep_targets(pats, a) + keep_targets(pats, b),
{
    Seq::filter_distributes_over_add(a, b, |name: Seq<char>| is_target(pats, name));
}

/// The targets among `names` are the members of `names` that are targets.
pub proof fn lemma_keep_targets_contains(
    pats: Seq<Seq<char>>,
    names: Seq<Seq<char>>,
    name: Seq<char>,
)
    ensures
        keep_targets(pats, names).contains(name) <==> names.contains(name) && is_target(
            pats,
            name,
        ),
    decreases names.len(),
{
    reveal(Seq::filter);
    if names.len() > 0 {
        let front = names.drop_last();
        lemma_keep_targets_contains(pats, front, name);
        let kept = keep_targets(pats, front);
        if names.contains(name) {
            let i = choose|i: int| 0 <= i < names.len() && names[i] == name;
            if i < front.len() {
                assert(front[i] == name);
            }
        }
        if front.contains(name) {
            let i = choose|i: int| 0 <= i < front.len() && front[i] == name;
            assert(names[i] == name);
        }
        assert(names[names.len() - 1] == names.last());
        if is_target(pats, names.last()) {
            assert(keep_targets(pats, names) == kept.push(names.last()));
            if kept.contains(name) {
                let i = choose|i: int| 0 <= i < kept.len() && kept[i] == name;
                assert(kept.push(names.last())[i] == name);
            }
            assert(kept.push(names.last())[kept.len() as int] == names.last());
        }
    }
}

/// With no patterns every name is a target.
pub proof fn lemma_keep_targets_of_empty_store(names: Seq<Seq<char>>)
    ensures
        keep_targets(Seq::empty(), names) == names,
    decreases names.len(),
{
    reveal(Seq::filter);
    if names.len() > 0 {
        lemma_keep_targets_of_empty_store(names.drop_last());
        assert(names.drop_last().push(names.last()) == names);
    }
}

/// The walk of a fully listed tree, with recursion on, against the tree itself.
proof fn lemma_walk_of_sound(cfg: Config, pats: Seq<Seq<char>>, node: NodeView)
    requires
        cfg.recurse,
        sound(node),
    ensures
        walk(cfg, pats, node).result is Ok,
        walk(cfg, pats, node).files == tree_files(node).len(),
        walk(cfg, pats, node).dirs == tree_dirs(node),
        files_told(walk(cfg, pats, node).notices) == keep_targets(pats, tree_files(node)),
        dirs_told(walk(cfg, pats, node).notices) == shown_dirs(cfg, pats, node),
    decreases node, 0nat,
{
    let entries = node.state->Listed_0;
    let found = targets(pats, entries);
    let own = notices_for(cfg, node.path, found);
    let below = walk_subdirs(cfg, pats, entries, 0);
    lemma_walk_subdirs_of_sound(cfg, pats, entries, 0);
    lemma_told_of_directory(cfg, node.path, found);
    lemma_told_add(own, below.notices);
    lemma_keep_targets_add(pats, file_names(entries), files_below(entries, 0));
}

/// The same of the subdirectories among `entries[from..]`.
proof fn lemma_walk_subdirs_of_sound(
    cfg: Config,
    pats: Seq<Seq<char>>,
    entries: Seq<EntryView>,
    from: int,
)
    requires
        cfg.recurse,
        0 <= from <= entries.len(),
        forall|i: int|
            from <= i < entries.len() ==> match #[trigger] entries[i] {
                EntryView::Dir(sub) => sound(sub),
                EntryView::File(_) => true,
            },
    ensures
        walk_subdirs(cfg, pats, entries, from).result is Ok,
        walk_subdirs(cfg, pats, entries, from).files == files_below(entries, from).len(),
        walk_subdirs(cfg, pats, entries, from).dirs == dirs_below(entries, from),
        files_told(walk_subdirs(cfg, pats, entries, from).notices) == keep_targets(
            pats,
            files_below(entries, from),
        ),
        dirs_told(walk_subdirs(cfg, pats, entries, from).notices) == shown_dirs_below(
            cfg,
            pats,
            entries,
            from,
        ),
    decreases entries, entries.len() - from,
{
    if from < entries.len() {
        lemma_walk_subdirs_of_sound(cfg, pats, entries, from + 1);
        match entries[from] {
            EntryView::File(_) => {},
            EntryView::Dir(sub) => {
                lemma_walk_of_sound(cfg, pats, sub);
                lemma_told_add(
                    walk(cfg, pats, sub).notices,
                    walk_subdirs(cfg, pats, entries, from + 1).notices,
                );
                lemma_keep_targets_add(pats, tree_files(sub), files_below(entries, from + 1));
            },
        }
    } else {
        lemma_keep_targets_of_empty_store(Seq::empty());
        assert(keep_targets(pats, Seq::empty()) == Seq::<Seq<char>>::empty()) by {
            reveal(Seq::filter);
        }
    }
}

/// On a tree that was listed in full, a walk with recursion on tells the handler of
/// exactly the target files of the tree, each as often as it occurs and in the order
/// of the walk.
pub proof fn walk_tells_the_targets(cfg: Config, pats: Seq<Seq<char>>, tree: NodeView)
    requires
        cfg.recurse,
        sound(tree),
    ensures
        files_told(walk(cfg, pats, tree).notices) == keep_targets(pats, tree_files(tree)),
{
    lemma_walk_of_sound(cfg, pats, tree);
}

/// With at least one pattern, the set of file names told to the handler is the set of
/// file names in the tree whose extension is among the patterns.
pub proof fn walk_tells_the_matching_names(cfg: Config, pats: Seq<Seq<char>>, tree: NodeView)
    requires
        cfg.recurse,
        sound(tree),
        pats.len() > 0,
    ensures
        files_told(walk(cfg, pats, tree).notices).to_set() == Set::new(
            |name: Seq<char>| tree_files(tree).contains(name) && in_store(pats, name),
        ),
{
    lemma_walk_of_sound(cfg, pats, tree);
    let told = files_told(walk(cfg, pats, tree).notices);
    let matching = Set::new(
        |name: Seq<char>| tree_files(tree).contains(name) && in_store(pats, name),
    );
    assert forall|name: Seq<char>| told.to_set().contains(name) == matching.contains(name) by {
        lemma_keep_targets_contains(pats, tree_files(tree), name);
    }
    assert(told.to_set() =~= matching);
}

/// Without patterns, every non-directory entry of the tree is told to the handler.
pub proof fn walk_without_patterns_tells_all(cfg: Config, tree: NodeView)
    requires
        cfg.recurse,
        sound(tree),
    ensures
        files_told(walk(cfg, Seq::empty(), tree).notices) == tree_files(tree),
{
    lemma_walk_of_sound(cfg, Seq::empty(), tree);
    lemma_keep_targets_of_empty_store(tree_files(tree));
}

/// A full walk counts every non-directory entry of the tree, whatever the patterns are,
/// and every directory of the tree, and ends well.
pub proof fn walk_counts_the_tree(cfg: Config, pats: Seq<Seq<char>>, tree: NodeView)
    requires
        cfg.recurse,
        sound(tree),
    ensures
        walk(cfg, pats, tree).result is Ok,
        walk(cfg, pats, tree).files == tree_files(tree).len(),
        walk(cfg, pats, tree).dirs == tree_dirs(tree),
{
    lemma_walk_of_sound(cfg, pats, tree);
}

/// Without recursion a walk visits one directory, whatever the tree holds, and where
/// that directory was listed in full it meets and tells what the directory itself holds.
pub proof fn walk_without_recursion_visits_one(cfg: Config, pats: Seq<Seq<char>>, tree: NodeView)
    requires
        !cfg.recurse,
    ensures
        walk(cfg, pats, tree).dirs == 1,
        tree.state matches StateView::Listed(entries) ==> {
            &&& walk(cfg, pats, tree).result is Ok
            &&& walk(cfg, pats, tree).files == file_names(entries).len()
            &&& files_told(walk(cfg, pats, tree).notices) == targets(pats, entries)
        },
{
    if let StateView::Listed(entries) = tree.state {
        let own = notices_for(cfg, tree.path, targets(pats, entries));
        lemma_told_of_directory(cfg, tree.path, targets(pats, entries));
        assert(own + Seq::<Notice>::empty() == own);
    }
}

/// The directories told to the handler are those that are shown: with `cfg.hide` the
/// directories that hold a target file themselves, and no others; without it every
/// directory of the tree.
pub proof fn walk_tells_the_shown_dirs(cfg: Config, pats: Seq<Seq<char>>, tree: NodeView)
    requires
        cfg.recurse,
        sound(tree),
    ensures
        dirs_told(walk(cfg, pats, tree).notices) == shown_dirs(cfg, pats, tree),
        !cfg.hide ==> dirs_told(walk(cfg, pats, tree).notices).len() == tree_dirs(tree),
{
    lemma_walk_of_sound(cfg, pats, tree);
    if !cfg.hide {
        lemma_all_dirs_shown(cfg, pats, tree);
    }
}

/// A second walk of the same tree, with patterns and switches as they were, brings
/// about what the first did: the same notifications, the same additions to the counters,
/// the same end.
pub proof fn walk_repeats(nav: NavView, tree: NodeView)
    ensures
        nav.after(nav.walk_of(tree)).walk_of(tree) == nav.walk_of(tree),
{
}

/// A cleared navigator is in the state of a new one whose switches were set as those
/// of the cleared one are, so that what follows goes as it would from there.
pub proof fn cleared_is_as_new(nav: NavView)
    ensures
        nav.cleared() == (NavView { recurse: nav.recurse, hide: nav.hide, ..NavView::fresh() }),
        nav.recurse && nav.hide ==> nav.cleared() == NavView::fresh(),
{
}

/// Where nothing is hidden, every directory of a fully listed tree is shown.
proof fn lemma_all_dirs_shown(cfg: Config, pats: Seq<Seq<char>>, node: NodeView)
    requires
        !cfg.hide,
        sound(node),
    ensures
        shown_dirs(cfg, pats, node).len() == tree_dirs(node),
    decreases node, 0nat,
{
    lemma_all_dirs_shown_below(cfg, pats, node.state->Listed_0, 0);
}

/// The same of the subdirectories among `entries[from..]`.
proof fn lemma_all_dirs_shown_below(
    cfg: Config,
    pats: Seq<Seq<char>>,
    entries: Seq<EntryView>,
    from: int,
)
    requires
        !cfg.hide,
        0 <= from <= entries.len(),
        forall|i: int|
            from <= i < entries.len() ==> match #[trigger] entries[i] {
                EntryView::Dir(sub) => sound(sub),
                EntryView::File(_) => true,
            },
    ensures
        shown_dirs_below(cfg, pats, entries, from).len() == dirs_below(entries, from),
    decreases entries, entries.len() - from,
{
    if from < entries.len() {
        lemma_all_dirs_shown_below(cfg, pats, entries, from + 1);
        match entries[from] {
            EntryView::File(_) => {},
            EntryView::Dir(sub) => {
                lemma_all_dirs_shown(cfg, pats, sub);
            },
        }
    }
}

} // verus!
