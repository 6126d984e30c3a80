//! Mount guard: the precondition check consulted before any mutating
//! operation.
//!
//! The live mount table is ground truth. Its printed form is handed in as
//! bytes, split into entries here, and a target passes only on an exact
//! prefix-and-filesystem-type match. Unparseable lines do not apply, they
//! are skipped.

use vstd::prelude::*;

use crate::errors::CoreError;
use crate::text::{
    bytes_eq, copy_bytes, lemma_deep_view_is_views, lines_from, split_lines, split_tokens,
    starts_with, tokens_from,
};

verus! {

/// One line of the mount table: where something is mounted and as what
/// filesystem type.
pub struct MountEntry {
    pub target: Vec<u8>,
    pub fstype: Vec<u8>,
}

/// Mathematical model of a mount table entry.
pub struct MountEntryView {
    pub target: Seq<u8>,
    pub fstype: Seq<u8>,
}

impl View for MountEntry {
    type V = MountEntryView;

    open spec fn view(&self) -> MountEntryView {
        MountEntryView { target: self.target@, fstype: self.fstype@ }
    }
}

impl DeepView for MountEntry {
    type V = MountEntryView;

    open spec fn deep_view(&self) -> MountEntryView {
        self.view()
    }
}

/// The view of a vector of mount entries, element by element.
pub proof fn lemma_mount_deep_view(v: &Vec<MountEntry>)
    ensures
        v.deep_view().len() == v@.len(),
        forall|k: int| 0 <= k < v@.len() ==> v.deep_view()[k] == v@[k]@,
{
}

/// The entries carried by the mount tool's lines: the first two fields of
/// every line holding at least two, target then filesystem type.
pub open spec fn entries_of_lines(ls: Seq<Seq<u8>>) -> Seq<MountEntryView>
    decreases ls.len(),
{
    if ls.len() == 0 {
        Seq::empty()
    } else {
        let rest = entries_of_lines(ls.drop_last());
        let ts = tokens_from(ls.last(), 0);
        if ts.len() >= 2 {
            rest.push(MountEntryView { target: ts[0], fstype: ts[1] })
        } else {
            rest
        }
    }
}

pub open spec fn mount_table_spec(output: Seq<u8>) -> Seq<MountEntryView> {
    entries_of_lines(lines_from(output, 0))
}

/// Splits the mount tool's output into entries, one per parseable line.
pub fn parse_mount_table(output: &Vec<u8>) -> (r: Vec<MountEntry>)
    ensures
        r.deep_view() == mount_table_spec(output@),
{
    let lines = split_lines(output);
    let mut out: Vec<MountEntry> = Vec::new();
    let mut i: usize = 0;
    proof {
        lemma_deep_view_is_views(&lines);
    }
    while i < lines.len()
        invariant
            i <= lines.len(),
            lines.deep_view() == lines_from(output@, 0),
            lines.deep_view().len() == lines@.len(),
            forall|k: int| 0 <= k < lines@.len() ==> lines.deep_view()[k] == lines@[k]@,
            out.deep_view() == entries_of_lines(lines.deep_view().take(i as int)),
        decreases lines.len() - i,
    {
        let ghost taken: Seq<Seq<u8>> = lines.deep_view().take(i as int + 1);
        proof {
            assert(taken.drop_last() =~= lines.deep_view().take(i as int));
            assert(taken.last() == lines@[i as int]@);
        }
        let toks = split_tokens(&lines[i]);
        proof {
            lemma_deep_view_is_views(&toks);
        }
        if toks.len() >= 2 {
            let entry = MountEntry { target: copy_bytes(&toks[0]), fstype: copy_bytes(&toks[1]) };
            out.push(entry);
            proof {
                lemma_mount_deep_view(&out);
                assert(out.deep_view() =~= entries_of_lines(taken));
            }
        } else {
            proof {
                assert(out.deep_view() =~= entries_of_lines(taken));
            }
        }
        i = i + 1;
    }
    proof {
        assert(lines.deep_view().take(lines@.len() as int) =~= lines.deep_view());
    }
    out
}

/// Some entry mounts the queried path — the entry's target starts with
/// it — with exactly the expected filesystem type.
pub open spec fn table_confirms(
    entries: Seq<MountEntryView>,
    path: Seq<u8>,
    fstype: Seq<u8>,
) -> bool {
    exists|i: int|
        0 <= i < entries.len() && #[trigger] entries[i].fstype == fstype && path.is_prefix_of(
            entries[i].target,
        )
}

/// The first check in every mutating command path: the target directory
/// must be mounted, with the expected filesystem type, according to the
/// live mount table handed in. Anything else is `NotMounted`.
pub fn ensure_mounted_as_expected_type(
    entries: &Vec<MountEntry>,
    path: &Vec<u8>,
    fstype: &Vec<u8>,
) -> (r: Result<(), CoreError>)
    ensures
        match r {
            Ok(()) => table_confirms(entries.deep_view(), path@, fstype@),
            Err(e) => !table_confirms(entries.deep_view(), path@, fstype@) && e
                == CoreError::NotMounted,
        },
{
    proof {
        lemma_mount_deep_view(entries);
    }
    let mut k: usize = 0;
    while k < entries.len()
        invariant
            k <= entries.len(),
            entries.deep_view().len() == entries@.len(),
            forall|j: int| 0 <= j < entries@.len() ==> entries.deep_view()[j] == entries@[j]@,
            forall|j: int| #![trigger entries.deep_view()[j]]
                0 <= j < k ==> !(entries.deep_view()[j].fstype == fstype@
                    && path@.is_prefix_of(entries.deep_view()[j].target)),
        decreases entries.len() - k,
    {
        if starts_with(&entries[k].target, path) && bytes_eq(&entries[k].fstype, fstype) {
            proof {
                assert(entries.deep_view()[k as int].fstype == fstype@);
            }
            return Ok(());
        }
        k = k + 1;
    }
    proof {
        assert forall|j: int|
            0 <= j < entries.deep_view().len() implies !(#[trigger] entries.deep_view()[j].fstype
            == fstype@ && path@.is_prefix_of(entries.deep_view()[j].target)) by {}
    }
    Err(CoreError::NotMounted)
}

} // verus!
