//! Resolving a package under `node_modules` and, through its entry file,
//! the packages that one imports, depth first; a package resolved before is
//! skipped. The decisions are made here one step at a time; finding and
//! reading files is left to the caller, which answers each action with an
//! event.
use vstd::prelude::*;
use vstd::string::StringExecFns;
use crate::engine::graph_build::{is_package, is_package_exec};
use crate::engine::manifest::{manifest_package, manifest_entry, npm_manifest};
use crate::engine::vue_compiler::{VueProjectCompiler, package_view};
use crate::jetcrab::web_apis::json_error;
use crate::text::owned;

verus! {

/// What the resolver asks the caller to do next.
#[derive(Debug)]
pub enum NpmAction {
    /// Find this package's directory under `node_modules` and read its
    /// `package.json`.
    ReadManifest(String),
    /// Read the entry file (relative to the package's directory) of this
    /// package and answer with the modules it imports.
    ReadEntry {
        /// The package.
        package: String,
        /// Its entry file.
        entry: String,
    },
    /// Every package is resolved.
    Done,
    /// Resolving failed with this error.
    Failed(String),
}

/// What the caller found of a package's manifest.
#[derive(Debug)]
pub enum ManifestRead {
    /// The package's directory does not exist; the directory, as shown in
    /// the error.
    NoPackage(String),
    /// The directory has no `package.json`.
    NoManifest,
    /// The manifest's text, or why it could not be read.
    Read(Result<String, String>),
}

/// What the caller answers.
#[derive(Debug)]
pub enum NpmEvent {
    /// What was found of the manifest asked for.
    Manifest(ManifestRead),
    /// The imports of the entry file asked for, why it could not be read, or
    /// `None` where it does not exist.
    Entry(Option<Result<Vec<String>, String>>),
}

/// An action by its plain values.
pub enum NpmActionView {
    /// Read a package's manifest.
    ReadManifest(Seq<char>),
    /// Read a package's entry file.
    ReadEntry(Seq<char>, Seq<char>),
    /// Complete.
    Done,
    /// Failed.
    Failed(Seq<char>),
}

/// An action's plain values.
pub open spec fn npm_action_view(a: NpmAction) -> NpmActionView {
    match a {
        NpmAction::ReadManifest(n) => NpmActionView::ReadManifest(n@),
        NpmAction::ReadEntry { package, entry } => NpmActionView::ReadEntry(package@, entry@),
        NpmAction::Done => NpmActionView::Done,
        NpmAction::Failed(e) => NpmActionView::Failed(e@),
    }
}

/// What the resolver waits for.
#[derive(Debug, Clone, Copy, PartialEq, Eq, Structural)]
pub enum NpmWaiting {
    /// The manifest of the package asked for.
    Manifest,
    /// The imports of the entry file asked for.
    Entry,
    /// Nothing: every package is resolved.
    Finished,
    /// Nothing: resolving failed.
    Stopped,
}

/// The next package to resolve from a stack of pending ones (the top
/// last): packages already known are dropped; with none left, nothing.
pub open spec fn next_package(pending: Seq<Seq<char>>, known: Set<Seq<char>>) -> (Seq<Seq<char>>, Option<Seq<char>>)
    decreases pending.len(),
{
    if pending.len() == 0 {
        (pending, None)
    } else if known.contains(pending.last()) {
        next_package(pending.drop_last(), known)
    } else {
        (pending.drop_last(), Some(pending.last()))
    }
}

/// The packages among the imports of a file, stacked so that the first
/// comes out first.
pub open spec fn stacked(deps: Seq<Seq<char>>) -> Seq<Seq<char>>
    decreases deps.len(),
{
    if deps.len() == 0 {
        Seq::empty()
    } else if is_package(deps[0]) {
        stacked(deps.drop_first()).push(deps[0])
    } else {
        stacked(deps.drop_first())
    }
}

/// The action that the next package gives.
pub open spec fn ask_for(next: Option<Seq<char>>) -> NpmActionView {
    match next {
        Some(n) => NpmActionView::ReadManifest(n),
        None => NpmActionView::Done,
    }
}

/// The action that sets what the resolver waits for.
pub open spec fn npm_waiting_for(a: NpmActionView) -> NpmWaiting {
    match a {
        NpmActionView::ReadManifest(_) => NpmWaiting::Manifest,
        NpmActionView::ReadEntry(_, _) => NpmWaiting::Entry,
        NpmActionView::Done => NpmWaiting::Finished,
        NpmActionView::Failed(_) => NpmWaiting::Stopped,
    }
}

/// Resolves packages depth first, one step per event, recording each in a
/// project compiler.
#[derive(Debug)]
pub struct NpmResolver {
    pending: Vec<String>,
    current: String,
    waiting: NpmWaiting,
}

impl NpmResolver {
    /// The packages still to resolve, the next last.
    pub closed spec fn pending(&self) -> Seq<Seq<char>> {
        self.pending@.map_values(|s: String| s@)
    }

    /// The package being resolved.
    pub closed spec fn current(&self) -> Seq<char> {
        self.current@
    }

    /// What the resolver waits for.
    pub closed spec fn waiting(&self) -> NpmWaiting {
        self.waiting
    }

    /// Takes the next package that `compiler` does not know yet, and asks
    /// for its manifest; with none left, resolving is complete.
    fn take_next(&mut self, compiler: &VueProjectCompiler) -> (a: NpmAction)
        ensures
            final(self).pending() == next_package(old(self).pending(), compiler.packages().dom()).0,
            npm_action_view(a) == ask_for(next_package(old(self).pending(), compiler.packages().dom()).1),
            final(self).waiting() == npm_waiting_for(npm_action_view(a)),
            next_package(old(self).pending(), compiler.packages().dom()).1 matches Some(n) ==> final(self).current() == n,
    {
        loop
            invariant
                next_package(self.pending(), compiler.packages().dom()) == next_package(
                    old(self).pending(),
                    compiler.packages().dom(),
                ),
            decreases self.pending@.len(),
        {
            let ghost ps = self.pending();
            match self.pending.pop() {
                None => {
                    self.waiting = NpmWaiting::Finished;
                    return NpmAction::Done;
                },
                Some(name) => {
                    assert(self.pending() =~= ps.drop_last());
                    assert(name@ == ps.last());
                    if !compiler.has_npm_package(name.as_str()) {
                        self.current = String::from_str(name.as_str());
                        self.waiting = NpmWaiting::Manifest;
                        return NpmAction::ReadManifest(name);
                    }
                },
            }
        }
    }

    /// A resolver for `package_name`, and its first action: read its
    /// manifest, unless `compiler` knows the package already.
    pub fn new(package_name: &str, compiler: &VueProjectCompiler) -> (r: (Self, NpmAction))
        ensures
            r.0.pending() == next_package(seq![package_name@], compiler.packages().dom()).0,
            npm_action_view(r.1) == ask_for(next_package(seq![package_name@], compiler.packages().dom()).1),
            r.0.waiting() == npm_waiting_for(npm_action_view(r.1)),
            !compiler.packages().dom().contains(package_name@) ==> r.0.current() == package_name@,
    {
        let mut r = NpmResolver {
            pending: vec![String::from_str(package_name)],
            current: String::new(),
            waiting: NpmWaiting::Finished,
        };
        assert(r.pending() =~= seq![package_name@]);
        let a = r.take_next(compiler);
        (r, a)
    }

    /// Stacks the packages among `deps` on the pending ones, the first on top.
    fn stack_deps(&mut self, deps: &Vec<String>)
        ensures
            final(self).pending() == old(self).pending() + stacked(deps@.map_values(|s: String| s@)),
            final(self).current() == old(self).current(),
            final(self).waiting() == old(self).waiting(),
    {
        let ghost dv = deps@.map_values(|s: String| s@);
        let n = deps.len();
        let mut k: usize = n;
        assert(dv.subrange(n as int, n as int) =~= Seq::<Seq<char>>::empty());
        assert(old(self).pending() + Seq::<Seq<char>>::empty() =~= old(self).pending());
        while k > 0
            invariant
                k <= n,
                n == deps@.len(),
                dv == deps@.map_values(|s: String| s@),
                self.pending() == old(self).pending() + stacked(dv.subrange(k as int, n as int)),
                self.current() == old(self).current(),
                self.waiting() == old(self).waiting(),
            decreases k,
        {
            k = k - 1;
            let ghost before = self.pending();
            let ghost sub = dv.subrange(k as int, n as int);
            assert(sub.drop_first() =~= dv.subrange(k + 1, n as int));
            assert(sub[0] == deps@[k as int]@);
            if is_package_exec(deps[k].as_str()) {
                self.pending.push(String::from_str(deps[k].as_str()));
                assert(self.pending() =~= before.push(deps@[k as int]@));
            }
        }
        assert(dv.subrange(0, n as int) =~= dv);
    }

    /// The next action, given the answer to the last one: a manifest read
    /// records its package in `compiler` and asks for the entry file; the
    /// packages an entry file imports are resolved next, in order; a
    /// package without a manifest, or an entry file that is not there, is
    /// passed over; a missing package, an unreadable file or a manifest
    /// that is not JSON ends resolving, as does an answer that does not fit
    /// what was asked.
    pub fn step(&mut self, compiler: &mut VueProjectCompiler, event: NpmEvent) -> (a: NpmAction)
        ensures
            final(self).waiting() == npm_waiting_for(npm_action_view(a)),
            final(compiler).cache() == old(compiler).cache(),
            final(compiler).done() == old(compiler).done(),
            match (old(self).waiting(), event) {
                (NpmWaiting::Manifest, NpmEvent::Manifest(ManifestRead::NoPackage(p))) => {
                    &&& npm_action_view(a) == NpmActionView::Failed("Package not found: "@ + p@)
                    &&& final(compiler).packages() == old(compiler).packages()
                },
                (NpmWaiting::Manifest, NpmEvent::Manifest(ManifestRead::NoManifest)) | (
                    NpmWaiting::Entry,
                    NpmEvent::Entry(None),
                ) => {
                    &&& final(compiler).packages() == old(compiler).packages()
                    &&& final(self).pending() == next_package(old(self).pending(), old(compiler).packages().dom()).0
                    &&& npm_action_view(a) == ask_for(next_package(old(self).pending(), old(compiler).packages().dom()).1)
                },
                (NpmWaiting::Manifest, NpmEvent::Manifest(ManifestRead::Read(Ok(text)))) => match json_error(text@) {
                    Some(m) => {
                        &&& npm_action_view(a) == NpmActionView::Failed(m)
                        &&& final(compiler).packages() == old(compiler).packages()
                    },
                    None => {
                        &&& final(compiler).packages().dom() == old(compiler).packages().dom().insert(old(self).current())
                        &&& final(compiler).packages().remove(old(self).current()) == old(compiler).packages().remove(
                            old(self).current(),
                        )
                        &&& package_view(final(compiler).packages()[old(self).current()]) == manifest_package(
                            old(self).current(),
                            text@,
                        )
                        &&& npm_action_view(a) == NpmActionView::ReadEntry(old(self).current(), manifest_entry(text@))
                        &&& final(self).pending() == old(self).pending()
                        &&& final(self).current() == old(self).current()
                    },
                },
                (NpmWaiting::Entry, NpmEvent::Entry(Some(Ok(deps)))) => {
                    let ps = old(self).pending() + stacked(deps@.map_values(|s: String| s@));
                    &&& final(compiler).packages() == old(compiler).packages()
                    &&& final(self).pending() == next_package(ps, old(compiler).packages().dom()).0
                    &&& npm_action_view(a) == ask_for(next_package(ps, old(compiler).packages().dom()).1)
                },
                (NpmWaiting::Manifest, NpmEvent::Manifest(ManifestRead::Read(Err(e)))) | (
                    NpmWaiting::Entry,
                    NpmEvent::Entry(Some(Err(e))),
                ) => {
                    &&& npm_action_view(a) == NpmActionView::Failed(e@)
                    &&& final(compiler).packages() == old(compiler).packages()
                },
                _ => {
                    &&& npm_action_view(a) == NpmActionView::Failed("unexpected event"@)
                    &&& final(compiler).packages() == old(compiler).packages()
                },
            },
    {
        match (self.waiting, event) {
            (NpmWaiting::Manifest, NpmEvent::Manifest(ManifestRead::NoPackage(p))) => {
                self.waiting = NpmWaiting::Stopped;
                NpmAction::Failed(owned("Package not found: ").concat(p.as_str()))
            },
            (NpmWaiting::Manifest, NpmEvent::Manifest(ManifestRead::NoManifest)) => self.take_next(compiler),
            (NpmWaiting::Entry, NpmEvent::Entry(None)) => self.take_next(compiler),
            (NpmWaiting::Manifest, NpmEvent::Manifest(ManifestRead::Read(Ok(text)))) => {
                match npm_manifest(self.current.as_str(), text.as_str()) {
                    Ok((info, entry)) => {
                        compiler.record_npm_package(self.current.as_str(), info);
                        proof {
                            assert(compiler.packages().dom() =~= old(compiler).packages().dom().insert(self.current@));
                            assert(compiler.packages().remove(self.current@) =~= old(compiler).packages().remove(
                                self.current@,
                            ));
                        }
                        self.waiting = NpmWaiting::Entry;
                        NpmAction::ReadEntry { package: String::from_str(self.current.as_str()), entry }
                    },
                    Err(m) => {
                        self.waiting = NpmWaiting::Stopped;
                        NpmAction::Failed(m)
                    },
                }
            },
            (NpmWaiting::Entry, NpmEvent::Entry(Some(Ok(deps)))) => {
                self.stack_deps(&deps);
                self.take_next(compiler)
            },
            (NpmWaiting::Manifest, NpmEvent::Manifest(ManifestRead::Read(Err(e)))) => {
                self.waiting = NpmWaiting::Stopped;
                NpmAction::Failed(e)
            },
            (NpmWaiting::Entry, NpmEvent::Entry(Some(Err(e)))) => {
                self.waiting = NpmWaiting::Stopped;
                NpmAction::Failed(e)
            },
            _ => {
                self.waiting = NpmWaiting::Stopped;
                NpmAction::Failed(owned("unexpected event"))
            },
        }
    }
}

} // verus!
