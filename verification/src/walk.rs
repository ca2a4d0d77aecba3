//! What a depth-first walk of a directory tree does, as a mathematical function.

use crate::pattern::is_target;
use crate::sep::normalized;
use crate::tree::{file_names, EntryView, IoError, NodeView, StateView};
use vstd::prelude::*;

verus! {

/// The two switches of a walk.
pub struct Config {
    /// Descend into subdirectories.
    pub recurse: bool,
    /// Keep quiet about directories without a target file.
    pub hide: bool,
}

/// One notification to the handler.
pub enum Notice {
    /// A directory, by its normalized path.
    Dir(Seq<char>),
    /// A target file, by its bare name.
    File(Seq<char>),
}

/// Everything a walk brings about.
pub struct Outcome {
    /// The notifications, in the order in which they are made.
    pub notices: Seq<Notice>,
    /// How many non-directory entries were met.
    pub files: nat,
    /// How many directories were visited.
    pub dirs: nat,
    /// How the walk ended.
    pub result: Result<(), IoError>,
}

impl Outcome {
    /// The outcome of doing nothing.
    pub open spec fn nothing() -> Outcome {
        Outcome { notices: Seq::empty(), files: 0, dirs: 0, result: Ok(()) }
    }

    /// This outcome and then `next`, which only happens if this one ended well.
    pub open spec fn followed_by(self, next: Outcome) -> Outcome {
        if self.result is Err {
            self
        } else {
            Outcome {
                notices: self.notices + next.notices,
                files: self.files + next.files,
                dirs: self.dirs + next.dirs,
                result: next.result,
            }
        }
    }
}

/// Those of `names` that are targets under `pats`, in order.
pub open spec fn keep_targets(pats: Seq<Seq<char>>, names: Seq<Seq<char>>) -> Seq<Seq<char>> {
    names.filter(|name: Seq<char>| is_target(pats, name))
}

/// The names of the target files among `entries`, in order.
pub open spec fn targets(pats: Seq<Seq<char>>, entries: Seq<EntryView>) -> Seq<Seq<char>> {
    keep_targets(pats, file_names(entries))
}

/// Whether a directory with these target files is made known to the handler.
pub open spec fn shown(cfg: Config, found: Seq<Seq<char>>) -> bool {
    found.len() > 0 || !cfg.hide
}

/// One `File` notice for each name.
pub open spec fn file_notices(names: Seq<Seq<char>>) -> Seq<Notice> {
    names.map_values(|name: Seq<char>| Notice::File(name))
}

/// The notifications for a directory at `path` whose target files are `found`:
/// the directory, if it is shown, then each of the files.
pub open spec fn notices_for(cfg: Config, path: Seq<char>, found: Seq<Seq<char>>) -> Seq<Notice> {
    if shown(cfg, found) {
        seq![Notice::Dir(normalized(path))] + file_notices(found)
    } else {
        file_notices(found)
    }
}

/// The notifications for one directory by itself.
pub open spec fn own_notices(
    cfg: Config,
    pats: Seq<Seq<char>>,
    path: Seq<char>,
    entries: Seq<EntryView>,
) -> Seq<Notice> {
    notices_for(cfg, path, targets(pats, entries))
}

/// The walk of one path.
///
/// The visit counts as one directory whatever is found. A path that is not a directory
/// ends the walk with `NotADirectory`. A listing that broke off ends it with `IoFailure`,
/// after the files met so far were counted, and nothing of it is made known. A full listing
/// has its files counted, its notifications made, and then, if `cfg.recurse`, its
/// subdirectories walked in order until one of them fails.
pub open spec fn walk(cfg: Config, pats: Seq<Seq<char>>, node: NodeView) -> Outcome
    decreases node, 0nat,
{
    match node.state {
        StateView::NotADirectory => Outcome {
            notices: Seq::empty(),
            files: 0,
            dirs: 1,
            result: Err(IoError::NotADirectory),
        },
        StateView::Broken { seen, code } => Outcome {
            notices: Seq::empty(),
            files: file_names(seen).len(),
            dirs: 1,
            result: Err(IoError::IoFailure(code)),
        },
        StateView::Listed(entries) => Outcome {
            notices: own_notices(cfg, pats, node.path, entries),
            files: file_names(entries).len(),
            dirs: 1,
            result: Ok(()),
        }.followed_by(
            if cfg.recurse {
                walk_subdirs(cfg, pats, entries, 0)
            } else {
                Outcome::nothing()
            },
        ),
    }
}

/// The walks of the subdirectories among `entries[from..]`, one after the other.
pub open spec fn walk_subdirs(
    cfg: Config,
    pats: Seq<Seq<char>>,
    entries: Seq<EntryView>,
    from: int,
) -> Outcome
    decreases entries, entries.len() - from,
{
    if from < 0 || from >= entries.len() {
        Outcome::nothing()
    } else {
        match entries[from] {
            EntryView::File(_) => walk_subdirs(cfg, pats, entries, from + 1),
            EntryView::Dir(node) => walk(cfg, pats, node).followed_by(
                walk_subdirs(cfg, pats, entries, from + 1),
            ),
        }
    }
}

/// Appending a name appends it to the targets if it is one, and else leaves them.
pub proof fn lemma_keep_targets_push(pats: Seq<Seq<char>>, names: Seq<Seq<char>>, name: Seq<char>)
    ensures
        keep_targets(pats, names.push(name)) == if is_target(pats, name) {
            keep_targets(pats, names).push(name)
        } else {
            keep_targets(pats, names)
        },
        keep_targets(pats, Seq::empty()) == Seq::<Seq<char>>::empty(),
{
    reveal(Seq::filter);
    assert(names.push(name).drop_last() == names);
}

} // verus!
