//! Building a project's module graph depth first from its entry file.  The
//! decisions are made here, one step at a time: which module to read next,
//! which import is a package and which a local file, and when a module has
//! been seen already.  Reading files and resolving paths and packages is
//! left to the caller, which answers each action with an event.
use vstd::prelude::*;
use vstd::string::StringExecFns;
use crate::strmap::StrMap;
use crate::jetcrab::module::{copy_strings, str_views};
use crate::text::{starts_with, str_eq};

verus! {

/// What the builder asks the caller to do next.
#[derive(Debug)]
pub enum GraphAction {
    /// Read this module and answer with the modules it imports.
    ReadModule(String),
    /// Resolve this package under `node_modules`.
    ResolveNpm(String),
    /// Resolve a local import of a module and say where it is, if the file
    /// exists.
    ResolveLocal {
        /// The import.
        dep: String,
        /// The importing module.
        importer: String,
    },
    /// The graph is complete.
    Done,
    /// Building failed with this error.
    Failed(String),
}

/// What the caller answers.
#[derive(Debug)]
pub enum GraphEvent {
    /// The imports of the module read, or why it could not be read.
    ModuleRead(Result<Vec<String>, String>),
    /// Whether the package was resolved.
    NpmResolved(Result<(), String>),
    /// Where the local import is, if the file exists.
    LocalResolved(Option<String>),
}

/// An action by its plain values.
pub enum ActionView {
    /// Read a module.
    ReadModule(Seq<char>),
    /// Resolve a package.
    ResolveNpm(Seq<char>),
    /// Resolve a local import of a module.
    ResolveLocal(Seq<char>, Seq<char>),
    /// Complete.
    Done,
    /// Failed.
    Failed(Seq<char>),
}

/// An action's plain values.
pub open spec fn action_view(a: GraphAction) -> ActionView {
    match a {
        GraphAction::ReadModule(k) => ActionView::ReadModule(k@),
        GraphAction::ResolveNpm(n) => ActionView::ResolveNpm(n@),
        GraphAction::ResolveLocal { dep, importer } => ActionView::ResolveLocal(dep@, importer@),
        GraphAction::Done => ActionView::Done,
        GraphAction::Failed(e) => ActionView::Failed(e@),
    }
}

/// A module whose imports are being followed: its key, its imports and how
/// many of them have been handled.
#[derive(Debug)]
pub struct Frame {
    /// The module.
    pub key: String,
    /// Its imports.
    pub deps: Vec<String>,
    /// How many imports have been handled.
    pub next: usize,
}

/// A frame by its plain values.
pub open spec fn frame_view(f: Frame) -> (Seq<char>, Seq<Seq<char>>, int) {
    (f.key@, str_views(f.deps@), f.next as int)
}

/// Frames by their plain values.
pub open spec fn frames_view(fs: Seq<Frame>) -> Seq<(Seq<char>, Seq<Seq<char>>, int)> {
    fs.map_values(|f: Frame| frame_view(f))
}

/// An import names a package: it starts with neither `.` nor `/`.
pub open spec fn is_package(dep: Seq<char>) -> bool {
    !starts_with(dep, seq!['.']) && !starts_with(dep, seq!['/'])
}

/// The next step from a stack of frames: frames whose imports are all
/// handled are dropped; the next import of the top frame is taken (a
/// package to resolve, or a local file to find); with no frame left the
/// graph is complete.
pub open spec fn advance(fs: Seq<(Seq<char>, Seq<Seq<char>>, int)>) -> (
    Seq<(Seq<char>, Seq<Seq<char>>, int)>,
    ActionView,
)
    decreases fs.len(),
{
    if fs.len() == 0 {
        (fs, ActionView::Done)
    } else {
        let f = fs.last();
        if f.2 < 0 || f.2 >= f.1.len() {
            advance(fs.drop_last())
        } else {
            let dep = f.1[f.2];
            let fs2 = fs.drop_last().push((f.0, f.1, f.2 + 1));
            if is_package(dep) {
                (fs2, ActionView::ResolveNpm(dep))
            } else {
                (fs2, ActionView::ResolveLocal(dep, f.0))
            }
        }
    }
}

/// What the builder waits for.
#[derive(Debug, Clone, Copy, PartialEq, Eq, Structural)]
pub enum Waiting {
    /// The imports of the module last asked for.
    Read,
    /// A package resolved.
    Npm,
    /// A local import found.
    Local,
    /// Nothing: the graph is complete.
    Finished,
    /// Nothing: building failed.
    Stopped,
}

/// The action that sets what the builder waits for.
pub open spec fn waiting_for(a: ActionView) -> Waiting {
    match a {
        ActionView::ReadModule(_) => Waiting::Read,
        ActionView::ResolveNpm(_) => Waiting::Npm,
        ActionView::ResolveLocal(_, _) => Waiting::Local,
        ActionView::Done => Waiting::Finished,
        ActionView::Failed(_) => Waiting::Stopped,
    }
}

/// Builds a module graph depth first, one step per event.
#[derive(Debug)]
pub struct GraphBuilder {
    graph: StrMap<Vec<String>>,
    visited: Vec<String>,
    frames: Vec<Frame>,
    reading: String,
    waiting: Waiting,
}

impl GraphBuilder {
    /// The imports of each module read, by module.
    pub closed spec fn graph(&self) -> Map<Seq<char>, Seq<Seq<char>>> {
        self.graph@.map_values(|v: Vec<String>| str_views(v@))
    }

    /// The modules in the order they were read.
    pub closed spec fn read_order(&self) -> Seq<Seq<char>> {
        self.graph.key_seq()
    }

    /// The modules asked for, in order.
    pub closed spec fn visited(&self) -> Seq<Seq<char>> {
        str_views(self.visited@)
    }

    /// The modules whose imports are being followed, innermost last.
    pub closed spec fn frames(&self) -> Seq<(Seq<char>, Seq<Seq<char>>, int)> {
        frames_view(self.frames@)
    }

    /// The module whose imports are awaited.
    pub closed spec fn reading(&self) -> Seq<char> {
        self.reading@
    }

    /// What the builder waits for.
    pub closed spec fn waiting(&self) -> Waiting {
        self.waiting
    }

    /// Each module is asked for once.
    pub closed spec fn wf(&self) -> bool {
        self.visited().no_duplicates()
    }

    /// A builder for the graph from an entry module, and its first action:
    /// read the entry.
    pub fn new(entry: &str) -> (r: (Self, GraphAction))
        ensures
            r.0.wf(),
            r.0.visited() == seq![entry@],
            r.0.graph() == Map::<Seq<char>, Seq<Seq<char>>>::empty(),
            r.0.frames().len() == 0,
            r.0.reading() == entry@,
            r.0.waiting() == Waiting::Read,
            action_view(r.1) == ActionView::ReadModule(entry@),
    {
        let visited = vec![String::from_str(entry)];
        let b = GraphBuilder {
            graph: StrMap::new(),
            visited,
            frames: Vec::new(),
            reading: String::from_str(entry),
            waiting: Waiting::Read,
        };
        assert(b.visited() =~= seq![entry@]);
        assert(b.graph() =~= Map::<Seq<char>, Seq<Seq<char>>>::empty());
        (b, GraphAction::ReadModule(String::from_str(entry)))
    }

    /// The imports of each module read, in the order read.
    pub fn into_graph(self) -> (g: StrMap<Vec<String>>)
        ensures
            g@.map_values(|v: Vec<String>| str_views(v@)) == self.graph(),
            g.key_seq() == self.read_order(),
    {
        self.graph
    }

    /// Takes the next step of the frames, and waits for what it asks.
    fn take_step(&mut self) -> (a: GraphAction)
        ensures
            final(self).frames() == advance(old(self).frames()).0,
            action_view(a) == advance(old(self).frames()).1,
            final(self).waiting() == waiting_for(action_view(a)),
            final(self).graph() == old(self).graph(),
            final(self).read_order() == old(self).read_order(),
            final(self).visited() == old(self).visited(),
            final(self).reading() == old(self).reading(),
    {
        loop
            invariant
                advance(self.frames()) == advance(old(self).frames()),
                self.graph() == old(self).graph(),
                self.read_order() == old(self).read_order(),
                self.visited() == old(self).visited(),
                self.reading() == old(self).reading(),
            decreases self.frames@.len(),
        {
            let n = self.frames.len();
            if n == 0 {
                self.waiting = Waiting::Finished;
                return GraphAction::Done;
            }
            let ghost fs = self.frames();
            let top = self.frames.pop().unwrap();
            assert(fs.last() == frame_view(top));
            assert(frames_view(self.frames@) =~= fs.drop_last());
            if top.next < top.deps.len() {
                let dep = String::from_str(top.deps[top.next].as_str());
                assert(str_views(top.deps@)[top.next as int] == top.deps@[top.next as int]@);
                assert(dep@ == fs.last().1[top.next as int]);
                let importer = String::from_str(top.key.as_str());
                let is_pkg = is_package_exec(dep.as_str());
                let next = top.next + 1;
                self.frames.push(Frame { key: top.key, deps: top.deps, next });
                assert(self.frames() =~= fs.drop_last().push((fs.last().0, fs.last().1, fs.last().2 + 1)));
                if is_pkg {
                    self.waiting = Waiting::Npm;
                    return GraphAction::ResolveNpm(dep);
                } else {
                    self.waiting = Waiting::Local;
                    return GraphAction::ResolveLocal { dep, importer };
                }
            } else {
                assert(advance(fs) == advance(fs.drop_last()));
            }
        }
    }

    /// The next action, given the answer to the last one: a module read is
    /// recorded with its imports, which are then followed in order; a local
    /// file found is read unless it was asked for before; a failure ends the
    /// build.  An answer that does not fit what was asked ends it too.
    pub fn step(&mut self, event: GraphEvent) -> (a: GraphAction)
        requires
            old(self).wf(),
        ensures
            final(self).wf(),
            final(self).waiting() == waiting_for(action_view(a)),
            match (old(self).waiting(), event) {
                (Waiting::Read, GraphEvent::ModuleRead(Ok(deps))) => {
                    &&& final(self).graph() == old(self).graph().insert(old(self).reading(), str_views(deps@))
                    &&& final(self).read_order() == (if old(self).graph().dom().contains(old(self).reading()) {
                        old(self).read_order()
                    } else {
                        old(self).read_order().push(old(self).reading())
                    })
                    &&& final(self).frames() == advance(old(self).frames().push((old(self).reading(), str_views(deps@), 0))).0
                    &&& action_view(a) == advance(old(self).frames().push((old(self).reading(), str_views(deps@), 0))).1
                    &&& final(self).visited() == old(self).visited()
                },
                (Waiting::Npm, GraphEvent::NpmResolved(Ok(_))) | (Waiting::Local, GraphEvent::LocalResolved(None)) => {
                    &&& final(self).graph() == old(self).graph()
                    &&& final(self).read_order() == old(self).read_order()
                    &&& final(self).frames() == advance(old(self).frames()).0
                    &&& action_view(a) == advance(old(self).frames()).1
                    &&& final(self).visited() == old(self).visited()
                },
                (Waiting::Local, GraphEvent::LocalResolved(Some(k))) => {
                    &&& final(self).graph() == old(self).graph()
                    &&& final(self).read_order() == old(self).read_order()
                    &&& if old(self).visited().contains(k@) {
                        &&& final(self).frames() == advance(old(self).frames()).0
                        &&& action_view(a) == advance(old(self).frames()).1
                        &&& final(self).visited() == old(self).visited()
                    } else {
                        &&& final(self).frames() == old(self).frames()
                        &&& action_view(a) == ActionView::ReadModule(k@)
                        &&& final(self).visited() == old(self).visited().push(k@)
                        &&& final(self).reading() == k@
                    }
                },
                (Waiting::Read, GraphEvent::ModuleRead(Err(e))) | (Waiting::Npm, GraphEvent::NpmResolved(Err(e))) => {
                    &&& action_view(a) == ActionView::Failed(e@)
                    &&& final(self).graph() == old(self).graph()
                    &&& final(self).visited() == old(self).visited()
                },
                _ => {
                    &&& action_view(a) == ActionView::Failed("unexpected event"@)
                    &&& final(self).graph() == old(self).graph()
                    &&& final(self).visited() == old(self).visited()
                },
            },
    {
        match (self.waiting, event) {
            (Waiting::Read, GraphEvent::ModuleRead(Ok(deps))) => {
                let key = String::from_str(self.reading.as_str());
                let ghost before = self.graph@;
                self.graph.insert(key.as_str(), copy_strings(&deps));
                assert(self.graph() =~= old(self).graph().insert(old(self).reading(), str_views(deps@)));
                let ghost fs = self.frames();
                self.frames.push(Frame { key, deps, next: 0 });
                assert(self.frames() =~= fs.push((old(self).reading(), str_views(deps@), 0)));
                self.take_step()
            },
            (Waiting::Npm, GraphEvent::NpmResolved(Ok(_))) => self.take_step(),
            (Waiting::Local, GraphEvent::LocalResolved(None)) => self.take_step(),
            (Waiting::Local, GraphEvent::LocalResolved(Some(k))) => {
                if strs_contain(&self.visited, k.as_str()) {
                    self.take_step()
                } else {
                    let ghost vs = self.visited();
                    self.visited.push(String::from_str(k.as_str()));
                    assert(self.visited() =~= vs.push(k@));
                    proof {
                        assert forall|i: int, j: int|
                            0 <= i < self.visited().len() && 0 <= j < self.visited().len() && i != j implies self.visited()[i]
                            != self.visited()[j] by {
                            if i < vs.len() && j < vs.len() {
                            } else if i == vs.len() {
                                assert(vs.contains(self.visited()[j]) || j == i);
                            } else {
                                assert(vs.contains(self.visited()[i]));
                            }
                        }
                    }
                    self.reading = String::from_str(k.as_str());
                    self.waiting = Waiting::Read;
                    GraphAction::ReadModule(k)
                }
            },
            (Waiting::Read, GraphEvent::ModuleRead(Err(e))) => {
                self.waiting = Waiting::Stopped;
                GraphAction::Failed(e)
            },
            (Waiting::Npm, GraphEvent::NpmResolved(Err(e))) => {
                self.waiting = Waiting::Stopped;
                GraphAction::Failed(e)
            },
            _ => {
                self.waiting = Waiting::Stopped;
                GraphAction::Failed(String::from_str("unexpected event"))
            },
        }
    }
}

/// Whether a list of strings holds `s`.
fn strs_contain(v: &Vec<String>, s: &str) -> (r: bool)
    ensures
        r == str_views(v@).contains(s@),
{
    let mut i: usize = 0;
    while i < v.len()
        invariant
            i <= v@.len(),
            forall|j: int| 0 <= j < i ==> str_views(v@)[j] != s@,
        decreases v@.len() - i,
    {
        if str_eq(v[i].as_str(), s) {
            assert(str_views(v@)[i as int] == s@);
            return true;
        }
        i = i + 1;
    }
    false
}

/// Whether an import names a package.
pub fn is_package_exec(dep: &str) -> (r: bool)
    ensures
        r == is_package(dep@),
{
    let is_pkg = !(str_first_is(dep, '.') || str_first_is(dep, '/'));
    proof {
        if dep@.len() > 0 {
            assert(dep@.subrange(0, 1) =~= seq![dep@[0]]);
            assert(starts_with(dep@, seq!['.']) <==> dep@[0] == '.') by {
                if dep@[0] == '.' {
                    assert(dep@.subrange(0, 1) =~= seq!['.']);
                }
                if starts_with(dep@, seq!['.']) {
                    assert(dep@.subrange(0, 1)[0] == seq!['.'][0]);
                }
            }
            assert(starts_with(dep@, seq!['/']) <==> dep@[0] == '/') by {
                if dep@[0] == '/' {
                    assert(dep@.subrange(0, 1) =~= seq!['/']);
                }
                if starts_with(dep@, seq!['/']) {
                    assert(dep@.subrange(0, 1)[0] == seq!['/'][0]);
                }
            }
        }
    }
    is_pkg
}

/// Whether a string's first character is `c`.
fn str_first_is(s: &str, c: char) -> (r: bool)
    ensures
        r == (s@.len() > 0 && s@[0] == c),
{
    let n = s.unicode_len();
    n > 0 && s.get_char(0) == c
}

} // verus!
