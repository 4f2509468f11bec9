//! Patches for hot module replacement: a changed source reloads whole.
use vstd::prelude::*;
use crate::text::{chars_of, lines, line_ranges, pieces, seq_eq, sub_chars, owned, valid_ranges};
use crate::clock::now_millis;

verus! {

/// A patch sent to the page.
#[derive(Debug, Clone)]
pub struct HmrPatch {
    /// Kind of patch.
    pub patch_type: String,
    /// The file it is for.
    pub path: String,
    /// When it was made, in milliseconds since the Unix epoch.
    pub timestamp: u64,
    /// What changed.
    pub changes: Vec<Change>,
}

/// One change.
#[derive(Debug, Clone)]
pub struct Change {
    /// Kind of change.
    pub change_type: String,
    /// Its content.
    pub content: String,
}

/// The changes between two sources: none when their lines are the same,
/// else a reload with the new source.
pub open spec fn source_changes(old_source: Seq<char>, new_source: Seq<char>) -> Seq<(Seq<char>, Seq<char>)> {
    if lines(old_source) == lines(new_source) {
        Seq::empty()
    } else {
        seq![("reload"@, new_source)]
    }
}

/// A change by its parts.
pub open spec fn change_view(c: Change) -> (Seq<char>, Seq<char>) {
    (c.change_type@, c.content@)
}

/// Whether two sources have the same lines.
fn same_lines(a: &str, b: &str) -> (r: bool)
    ensures
        r == (lines(a@) == lines(b@)),
{
    let av = chars_of(a);
    let bv = chars_of(b);
    let ra = line_ranges(&av);
    let rb = line_ranges(&bv);
    if ra.len() != rb.len() {
        assert(pieces(av@, ra@).len() != pieces(bv@, rb@).len());
        return false;
    }
    let mut i: usize = 0;
    while i < ra.len()
        invariant
            i <= ra@.len(),
            ra@.len() == rb@.len(),
            av@ == a@,
            bv@ == b@,
            pieces(av@, ra@) == lines(a@),
            pieces(bv@, rb@) == lines(b@),
            valid_ranges(av@, ra@),
            valid_ranges(bv@, rb@),
            forall|k: int| 0 <= k < i ==> lines(a@)[k] == lines(b@)[k],
        decreases ra@.len() - i,
    {
        let (x0, x1) = ra[i];
        let (y0, y1) = rb[i];
        proof {
            assert(pieces(av@, ra@)[i as int] == av@.subrange(x0 as int, x1 as int));
            assert(pieces(bv@, rb@)[i as int] == bv@.subrange(y0 as int, y1 as int));
        }
        let la = sub_chars(&av, x0, x1);
        let lb = sub_chars(&bv, y0, y1);
        if !seq_eq(&la, &lb) {
            return false;
        }
        i = i + 1;
    }
    assert(lines(a@) =~= lines(b@));
    true
}

/// The changes between two sources.
fn diff_sources(old_source: &str, new_source: &str) -> (r: Result<Vec<Change>, String>)
    ensures
        r matches Ok(v) && v@.map_values(|c: Change| change_view(c)) == source_changes(old_source@, new_source@),
{
    let mut changes: Vec<Change> = Vec::new();
    if same_lines(old_source, new_source) {
        assert(changes@.map_values(|c: Change| change_view(c)) =~= Seq::<(Seq<char>, Seq<char>)>::empty());
        return Ok(changes);
    }
    changes.push(Change { change_type: owned("reload"), content: owned(new_source) });
    assert(changes@.map_values(|c: Change| change_view(c)) =~= seq![("reload"@, new_source@)]);
    Ok(changes)
}

/// A patch that reloads `filename` when its source changed, stamped with
/// the current time.
pub fn generate_patch(old_source: &str, new_source: &str, filename: &str) -> (r: Result<HmrPatch, String>)
    ensures
        r matches Ok(p) && p.patch_type@ == "vue-reload"@ && p.path@ == filename@ && p.changes@.map_values(
            |c: Change| change_view(c),
        ) == source_changes(old_source@, new_source@),
{
    let changes = match diff_sources(old_source, new_source) {
        Ok(c) => c,
        Err(e) => {
            return Err(e);
        },
    };
    Ok(HmrPatch { patch_type: owned("vue-reload"), path: owned(filename), timestamp: now_millis(), changes })
}

} // verus!
