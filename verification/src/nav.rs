//! The navigator: it owns the patterns, the counters and the handler, and walks trees.

use crate::pattern::{has_extension_in, in_store};
use crate::sep::{normalized, replace_sep};
use crate::tree::{
    entries_view, file_names, lemma_file_names_prefix, lemma_file_names_step, DirNode, DirState,
    Entry, EntryView, IoError, NodeView,
};
use crate::walk::{
    file_notices, lemma_keep_targets_push, notices_for, own_notices, targets, walk, walk_subdirs,
    Config, Notice, Outcome,
};
use vstd::prelude::*;
use vstd::std_specs::vec::axiom_vec_index_decreases;

verus! {

/// What a handler has to offer: it is told of each directory and of each target file.
pub trait DirEvent {
    /// A directory is visited; `d` is its normalized path.
    fn do_dir(&mut self, d: &str);

    /// A target file is found; `f` is its bare name.
    fn do_file(&mut self, f: &str);
}

/// The state of a navigator, without its handler.
pub struct NavView {
    /// The extensions looked for, in the order in which they were added.
    pub patterns: Seq<Seq<char>>,
    /// Non-directory entries met so far.
    pub files: nat,
    /// Directories visited so far.
    pub dirs: nat,
    /// Descend into subdirectories.
    pub recurse: bool,
    /// Keep quiet about directories without a target file.
    pub hide: bool,
    /// Every notification made to the handler so far, in order.
    pub told: Seq<Notice>,
}

impl NavView {
    /// The state of a navigator that was just made.
    pub open spec fn fresh() -> NavView {
        NavView {
            patterns: Seq::empty(),
            files: 0,
            dirs: 0,
            recurse: true,
            hide: true,
            told: Seq::empty(),
        }
    }

    /// The state after a clearing: all as in a new navigator, but for the switches.
    pub open spec fn cleared(self) -> NavView {
        NavView { recurse: self.recurse, hide: self.hide, ..NavView::fresh() }
    }

    /// The switches, as a walk takes them.
    pub open spec fn config(self) -> Config {
        Config { recurse: self.recurse, hide: self.hide }
    }

    /// Whether the counters can take what `o` adds to them.
    pub open spec fn has_room_for(self, o: Outcome) -> bool {
        self.files + o.files <= usize::MAX && self.dirs + o.dirs <= usize::MAX
    }

    /// The state after `o` came about: the counters grown, the notifications appended.
    pub open spec fn after(self, o: Outcome) -> NavView {
        NavView {
            files: self.files + o.files,
            dirs: self.dirs + o.dirs,
            told: self.told + o.notices,
            ..self
        }
    }

    /// Taking two outcomes in turn is taking them as one, if the first ended well.
    pub proof fn lemma_after_followed_by(self, first: Outcome, next: Outcome)
        requires
            first.result is Ok,
        ensures
            self.after(first).after(next) == self.after(first.followed_by(next)),
    {
        assert((self.told + first.notices) + next.notices =~= self.told + (first.notices
            + next.notices));
    }

    /// What a walk of `tree` from this state brings about.
    pub open spec fn walk_of(self, tree: NodeView) -> Outcome {
        walk(self.config(), self.patterns, tree)
    }
}

/// The strings that `names` refers to.
pub open spec fn names_of(names: Seq<&str>) -> Seq<Seq<char>> {
    names.map_values(|name: &str| name@)
}

/// A directory navigator with a handler of type `App`.
pub struct DirNav<App: DirEvent> {
    pats: Vec<String>,
    app: App,
    num_file: usize,
    num_dir: usize,
    recurse: bool,
    hide: bool,
    told: Ghost<Seq<Notice>>,
}

impl<App: DirEvent> View for DirNav<App> {
    type V = NavView;

    closed spec fn view(&self) -> NavView {
        NavView {
            patterns: self.pats.deep_view(),
            files: self.num_file as nat,
            dirs: self.num_dir as nat,
            recurse: self.recurse,
            hide: self.hide,
            told: self.told@,
        }
    }
}

impl<App: DirEvent + Default> DirNav<App> {
    /// The handler as it stands.
    pub closed spec fn handler(&self) -> App {
        self.app
    }

    /// A navigator without patterns, with counters at zero, a default handler,
    /// and both switches on.
    pub fn new() -> (nav: Self)
        ensures
            nav@ == NavView::fresh(),
            call_ensures(App::default, (), nav.handler()),
    {
        let nav = DirNav {
            pats: Vec::new(),
            app: App::default(),
            num_file: 0,
            num_dir: 0,
            recurse: true,
            hide: true,
            told: Ghost(Seq::empty()),
        };
        assert(nav.pats.deep_view() == Seq::<Seq<char>>::empty());
        nav
    }

    /// Sets whether a walk descends into subdirectories.
    pub fn recurse(&mut self, p: bool)
        ensures
            final(self)@ == (NavView { recurse: p, ..old(self)@ }),
            final(self).handler() == old(self).handler(),
    {
        self.recurse = p;
    }

    /// Sets whether directories without a target file are kept from the handler.
    pub fn hide_dirs(&mut self, p: bool)
        ensures
            final(self)@ == (NavView { hide: p, ..old(self)@ }),
            final(self).handler() == old(self).handler(),
    {
        self.hide = p;
    }

    /// Lends the handler, to read what it gathered or to change it.
    pub fn get_app(&mut self) -> (app: &mut App)
        ensures
            *app == old(self).handler(),
            final(self).handler() == *final(app),
            final(self)@ == old(self)@,
    {
        &mut self.app
    }

    /// The number of directories visited.
    pub fn get_dirs(&self) -> (n: usize)
        ensures
            n == self@.dirs,
    {
        self.num_dir
    }

    /// The number of non-directory entries met.
    pub fn get_files(&self) -> (n: usize)
        ensures
            n == self@.files,
    {
        self.num_file
    }

    /// The patterns, in the order in which they were added.
    pub fn get_patts(&self) -> (pats: &Vec<String>)
        ensures
            pats.deep_view() == self@.patterns,
    {
        &self.pats
    }

    /// Adds the extension `p`, as it is, to the patterns. The result is the navigator
    /// itself, so that calls can be chained.
    pub fn add_pat<S: Into<String>>(&mut self, p: S) -> (nav: &mut Self)
        ensures
            exists|pat: String| #[trigger]
                call_ensures(S::into, (p,), pat) && nav@ == (NavView {
                    patterns: old(self)@.patterns.push(pat@),
                    ..old(self)@
                }),
            nav.handler() == old(self).handler(),
            *final(self) == *final(nav),
    {
        let pat: String = p.into();
        self.push_pat(pat);
        self
    }

    /// Adds the extension `pat`, as it is, to the patterns.
    pub fn push_pat(&mut self, pat: String)
        ensures
            final(self)@ == (NavView { patterns: old(self)@.patterns.push(pat@), ..old(self)@ }),
            final(self).handler() == old(self).handler(),
    {
        self.pats.push(pat);
        assert(self.pats.deep_view() == old(self).pats.deep_view().push(pat@));
    }

    /// Empties the patterns, sets the counters to zero and makes the handler anew.
    /// The two switches stay as they are.
    pub fn clear(&mut self)
        ensures
            final(self)@ == old(self)@.cleared(),
            call_ensures(App::default, (), final(self).handler()),
    {
        self.pats.clear();
        self.num_dir = 0;
        self.num_file = 0;
        self.app = App::default();
        self.told = Ghost(Seq::empty());
        assert(self.pats.deep_view() == Seq::<Seq<char>>::empty());
    }

    /// The path with its separators normalized, as the handler is to see it.
    pub fn replace_sep(&self, path: &str) -> (r: String)
        ensures
            r@ == normalized(path@),
    {
        replace_sep(path)
    }

    /// Whether the patterns hold the extension of the file name `name`.
    pub fn in_patterns(&self, name: &str) -> (r: bool)
        ensures
            r == in_store(self@.patterns, name@),
    {
        has_extension_in(&self.pats, name)
    }

    /// Tells the handler of a directory.
    fn tell_dir(&mut self, path: &str)
        ensures
            final(self)@ == (NavView {
                told: old(self)@.told.push(Notice::Dir(path@)),
                ..old(self)@
            }),
    {
        self.app.do_dir(path);
        proof {
            self.told@ = self.told@.push(Notice::Dir(path@));
        }
    }

    /// Tells the handler of a target file.
    fn tell_file(&mut self, name: &str)
        ensures
            final(self)@ == (NavView {
                told: old(self)@.told.push(Notice::File(name@)),
                ..old(self)@
            }),
    {
        self.app.do_file(name);
        proof {
            self.told@ = self.told@.push(Notice::File(name@));
        }
    }

    /// Counts the non-directory entries among `entries` and picks the targets among them.
    fn scan<'a>(&mut self, entries: &'a Vec<Entry>) -> (found: Vec<&'a str>)
        requires
            old(self)@.files + file_names(entries_view(entries@)).len() <= usize::MAX,
        ensures
            final(self)@ == (NavView {
                files: old(self)@.files + file_names(entries_view(entries@)).len(),
                ..old(self)@
            }),
            final(self).handler() == old(self).handler(),
            names_of(found@) == targets(old(self)@.patterns, entries_view(entries@)),
    {
        let ghost all = entries_view(entries@);
        let ghost pats = self@.patterns;
        let mut found: Vec<&'a str> = Vec::new();
        let mut i: usize = 0;
        proof {
            assert(all.take(0) == Seq::<EntryView>::empty());
            lemma_keep_targets_push(pats, Seq::empty(), Seq::empty());
            assert(names_of(found@) == Seq::<Seq<char>>::empty());
        }
        while i < entries.len()
            invariant
                i <= entries.len(),
                all == entries_view(entries@),
                pats == old(self)@.patterns,
                old(self)@.files + file_names(all).len() <= usize::MAX,
                self@ == (NavView {
                    files: old(self)@.files + file_names(all.take(i as int)).len(),
                    ..old(self)@
                }),
                self.handler() == old(self).handler(),
                names_of(found@) == targets(pats, all.take(i as int)),
            decreases entries.len() - i,
        {
            proof {
                lemma_file_names_step(all, i as int);
                lemma_file_names_prefix(all, i + 1);
            }
            match &entries[i] {
                Entry::File(name) => {
                    proof {
                        lemma_keep_targets_push(pats, file_names(all.take(i as int)), name@);
                    }
                    self.num_file += 1;
                    if self.pats.len() == 0 || has_extension_in(&self.pats, name.as_str()) {
                        let ghost before = found@;
                        found.push(name.as_str());
                        assert(names_of(found@) == names_of(before).push(name@));
                    }
                },
                Entry::Dir(_) => {},
            }
            i += 1;
        }
        assert(all.take(entries.len() as int) == all);
        found
    }

    /// Makes the notifications for one directory: the directory itself, if it is
    /// shown, then each of its target files.
    fn announce(&mut self, path: &str, found: &Vec<&str>)
        ensures
            final(self)@ == (NavView {
                told: old(self)@.told + notices_for(
                    old(self)@.config(),
                    path@,
                    names_of(found@),
                ),
                ..old(self)@
            }),
    {
        let ghost names = names_of(found@);
        if found.len() > 0 || !self.hide {
            let shown = replace_sep(path);
            self.tell_dir(shown.as_str());
        }
        let ghost base = self@.told;
        let mut i: usize = 0;
        assert(base + file_notices(names.take(0)) == base);
        while i < found.len()
            invariant
                i <= found.len(),
                names == names_of(found@),
                self@ == (NavView {
                    told: base + file_notices(names.take(i as int)),
                    ..old(self)@
                }),
            decreases found.len() - i,
        {
            self.tell_file(found[i]);
            assert(file_notices(names.take(i + 1)) == file_notices(names.take(i as int)).push(
                Notice::File(found[i as int]@),
            ));
            i += 1;
        }
        assert(names.take(found.len() as int) == names);
        assert(self@.told =~= old(self)@.told + notices_for(old(self)@.config(), path@, names));
    }

    /// Walks the tree `dir` depth first: its own files before its subdirectories,
    /// these in the order of the listing.
    ///
    /// The visit of each directory counts, and so does each non-directory entry met,
    /// target or not. The handler is told of a directory if it holds a target file or
    /// if directories are not hidden, and then of each target file in it. Subdirectories
    /// are entered only if recursion is on. The first failure ends the walk; what was
    /// counted and told before it stays. The two switches hold for the whole walk as
    /// they stand at its start: the handler cannot reach them.
    pub fn visit(&mut self, dir: &DirNode) -> (r: Result<(), IoError>)
        requires
            old(self)@.has_room_for(old(self)@.walk_of(dir@)),
        ensures
            r == old(self)@.walk_of(dir@).result,
            final(self)@ == old(self)@.after(old(self)@.walk_of(dir@)),
        decreases dir,
    {
        let ghost start = self@;
        let ghost goal = start.after(start.walk_of(dir@));
        self.num_dir += 1;
        match &dir.state {
            DirState::NotADirectory => Err(IoError::NotADirectory),
            DirState::Broken { seen, code } => {
                let _ = self.scan(seen);
                assert(self@ == goal);
                Err(IoError::IoFailure(*code))
            },
            DirState::Listed(entries) => {
                let ghost all = entries_view(entries@);
                let found = self.scan(entries);
                self.announce(dir.path.as_str(), &found);
                let ghost own = Outcome {
                    notices: own_notices(start.config(), start.patterns, dir@.path, all),
                    files: file_names(all).len(),
                    dirs: 1,
                    result: Ok(()),
                };
                assert(self@ == start.after(own));
                if self.recurse {
                    let mut i: usize = 0;
                    proof {
                        start.lemma_after_followed_by(
                            own,
                            walk_subdirs(start.config(), start.patterns, all, 0),
                        );
                    }
                    while i < entries.len()
                        invariant
                            i <= entries.len(),
                            dir.state == DirState::Listed(*entries),
                            all == entries_view(entries@),
                            start == old(self)@,
                            goal == start.after(start.walk_of(dir@)),
                            self@.config() == start.config(),
                            self@.patterns == start.patterns,
                            goal.files <= usize::MAX,
                            goal.dirs <= usize::MAX,
                            self@.after(walk_subdirs(start.config(), start.patterns, all, i as int))
                                == goal,
                            walk_subdirs(start.config(), start.patterns, all, i as int).result
                                == start.walk_of(dir@).result,
                        decreases entries.len() - i,
                    {
                        match &entries[i] {
                            Entry::Dir(sub) => {
                                let ghost here = self@;
                                let ghost head = here.walk_of(sub@);
                                let ghost rest = walk_subdirs(
                                    start.config(),
                                    start.patterns,
                                    all,
                                    i + 1,
                                );
                                proof {
                                    assert(all[i as int] == EntryView::Dir(sub@));
                                    assert(decreases_to!(*entries => entries[i as int])) by {
                                        axiom_vec_index_decreases(*entries, i as int);
                                    }
                                }
                                let r = self.visit(sub);
                                if r.is_err() {
                                    return r;
                                }
                                proof {
                                    here.lemma_after_followed_by(head, rest);
                                }
                            },
                            Entry::File(_) => {},
                        }
                        i += 1;
                    }
                }
                Ok(())
            },
        }
    }
}

} // verus!
