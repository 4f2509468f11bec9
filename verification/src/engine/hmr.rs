//! Hot module replacement: file change detection by timestamp and the queue
//! of patches to send.
use vstd::prelude::*;
use crate::strmap::StrMap;
use crate::text::owned;
use crate::clock::now_millis;

verus! {

/// Kind of a patch.
#[derive(Debug, Clone, Copy, PartialEq, Eq, Structural)]
pub enum PatchType {
    /// Reload a Vue component.
    VueReload,
    /// Replace a stylesheet.
    CSSUpdate,
    /// Reload the page.
    FullReload,
}

/// A patch for the client.
#[derive(Debug, Clone)]
pub struct HMRPatch {
    /// Kind of patch.
    pub patch_type: PatchType,
    /// File concerned (empty for a full reload).
    pub file_path: String,
    /// Time it was made, in milliseconds since the Unix epoch.
    pub timestamp: u64,
    /// New content, or the reason of a reload.
    pub content: Option<String>,
}

/// `p` is a patch of kind `t` for `file` with content `c`.
pub open spec fn patch_is(p: HMRPatch, t: PatchType, file: Seq<char>, c: Seq<char>) -> bool {
    &&& p.patch_type == t
    &&& p.file_path@ == file
    &&& p.content matches Some(x) && x@ == c
}

impl HMRPatch {
    /// A copy.
    pub fn copy(&self) -> (p: Self)
        ensures
            p.patch_type == self.patch_type,
            p.file_path@ == self.file_path@,
            p.timestamp == self.timestamp,
            match self.content {
                Some(c) => p.content matches Some(x) && x@ == c@,
                None => p.content is None,
            },
    {
        HMRPatch {
            patch_type: self.patch_type,
            file_path: self.file_path.clone(),
            timestamp: self.timestamp,
            content: match &self.content {
                Some(c) => Some(c.clone()),
                None => None,
            },
        }
    }
}

/// The recorded time of `f`, 0 when none.
pub open spec fn recorded(m: Map<Seq<char>, u64>, f: Seq<char>) -> u64 {
    if m.contains_key(f) {
        m[f]
    } else {
        0
    }
}

/// Whether `f` changed at time `t`, and the times afterwards: a change when
/// `t` is later than the recorded time, which then becomes `t`.
pub open spec fn change_check(m: Map<Seq<char>, u64>, f: Seq<char>, t: u64) -> (bool, Map<Seq<char>, u64>) {
    if t > recorded(m, f) {
        (true, m.insert(f, t))
    } else {
        (false, m)
    }
}

/// Change detection and the patch queue.
#[derive(Debug)]
pub struct HMRManager {
    /// Last modification time of each file.
    pub file_timestamps: StrMap<u64>,
    pending_patches: Vec<HMRPatch>,
}

impl HMRManager {
    /// The recorded times by file.
    pub closed spec fn times(&self) -> Map<Seq<char>, u64> {
        self.file_timestamps@
    }

    /// The patches waiting to be sent.
    pub closed spec fn pending(&self) -> Seq<HMRPatch> {
        self.pending_patches@
    }

    /// Nothing recorded or queued.
    pub fn new() -> (h: Self)
        ensures
            h.times() == Map::<Seq<char>, u64>::empty(),
            h.pending().len() == 0,
    {
        HMRManager { file_timestamps: StrMap::new(), pending_patches: Vec::new() }
    }

    /// Whether `file_path` changed at `current_timestamp`, which is then
    /// recorded.
    pub fn check_file_change(&mut self, file_path: &str, current_timestamp: u64) -> (b: bool)
        ensures
            (b, final(self).times()) == change_check(old(self).times(), file_path@, current_timestamp),
            final(self).pending() == old(self).pending(),
    {
        let old_timestamp = match self.file_timestamps.get(file_path) {
            Some(t) => *t,
            None => 0,
        };
        if current_timestamp > old_timestamp {
            self.file_timestamps.insert(file_path, current_timestamp);
            true
        } else {
            false
        }
    }

    /// Queues a patch and returns a copy.
    fn queue(&mut self, patch: HMRPatch) -> (p: HMRPatch)
        ensures
            final(self).pending() == old(self).pending().push(patch),
            final(self).times() == old(self).times(),
            p.patch_type == patch.patch_type,
            p.file_path@ == patch.file_path@,
            p.timestamp == patch.timestamp,
            match patch.content {
                Some(c) => p.content matches Some(x) && x@ == c@,
                None => p.content is None,
            },
    {
        let c = patch.copy();
        self.pending_patches.push(patch);
        c
    }

    /// A patch reloading the component in `file_path`.
    pub fn generate_vue_reload_patch(&mut self, file_path: &str, content: &str) -> (p: HMRPatch)
        ensures
            patch_is(p, PatchType::VueReload, file_path@, content@),
            final(self).pending().len() == old(self).pending().len() + 1,
            final(self).pending().drop_last() == old(self).pending(),
            patch_is(final(self).pending().last(), PatchType::VueReload, file_path@, content@),
            final(self).times() == old(self).times(),
    {
        let timestamp = now_millis();
        self.queue(HMRPatch {
            patch_type: PatchType::VueReload,
            file_path: owned(file_path),
            timestamp,
            content: Some(owned(content)),
        })
    }

    /// A patch replacing the stylesheet in `file_path`.
    pub fn generate_css_update_patch(&mut self, file_path: &str, content: &str) -> (p: HMRPatch)
        ensures
            patch_is(p, PatchType::CSSUpdate, file_path@, content@),
            final(self).pending().len() == old(self).pending().len() + 1,
            final(self).pending().drop_last() == old(self).pending(),
            patch_is(final(self).pending().last(), PatchType::CSSUpdate, file_path@, content@),
            final(self).times() == old(self).times(),
    {
        let timestamp = now_millis();
        self.queue(HMRPatch {
            patch_type: PatchType::CSSUpdate,
            file_path: owned(file_path),
            timestamp,
            content: Some(owned(content)),
        })
    }

    /// A patch reloading the page, with the reason.
    pub fn generate_full_reload_patch(&mut self, reason: &str) -> (p: HMRPatch)
        ensures
            patch_is(p, PatchType::FullReload, Seq::empty(), reason@),
            final(self).pending().len() == old(self).pending().len() + 1,
            final(self).pending().drop_last() == old(self).pending(),
            patch_is(final(self).pending().last(), PatchType::FullReload, Seq::empty(), reason@),
            final(self).times() == old(self).times(),
    {
        let timestamp = now_millis();
        self.queue(HMRPatch {
            patch_type: PatchType::FullReload,
            file_path: String::new(),
            timestamp,
            content: Some(owned(reason)),
        })
    }

    /// Takes the queued patches, leaving the queue empty.
    pub fn get_pending_patches(&mut self) -> (r: Vec<HMRPatch>)
        ensures
            r@ == old(self).pending(),
            final(self).pending().len() == 0,
            final(self).times() == old(self).times(),
    {
        let mut out: Vec<HMRPatch> = Vec::new();
        std::mem::swap(&mut out, &mut self.pending_patches);
        out
    }

    /// Empties the queue.
    pub fn clear_patches(&mut self)
        ensures
            final(self).pending().len() == 0,
            final(self).times() == old(self).times(),
    {
        self.pending_patches.clear();
    }

    /// Forgets every recorded time.
    pub fn clear_timestamps(&mut self)
        ensures
            final(self).times() == Map::<Seq<char>, u64>::empty(),
            final(self).pending() == old(self).pending(),
    {
        self.file_timestamps.clear();
    }

    /// The recorded time of `file_path`.
    pub fn get_file_timestamp(&self, file_path: &str) -> (r: Option<u64>)
        ensures
            r == self.times().get(file_path@),
    {
        match self.file_timestamps.get(file_path) {
            Some(t) => Some(*t),
            None => None,
        }
    }

    /// Records the time of `file_path`.
    pub fn set_file_timestamp(&mut self, file_path: &str, timestamp: u64)
        ensures
            final(self).times() == old(self).times().insert(file_path@, timestamp),
            final(self).pending() == old(self).pending(),
    {
        self.file_timestamps.insert(file_path, timestamp);
    }
}

/// A file seen changed at some time is not seen changed again at that time,
/// and its recorded time is then that time.
pub proof fn lemma_change_once(m: Map<Seq<char>, u64>, f: Seq<char>, t: u64)
    ensures
        change_check(m, f, t).0 ==> recorded(change_check(m, f, t).1, f) == t,
        !change_check(change_check(m, f, t).1, f, t).0,
{
}

} // verus!
