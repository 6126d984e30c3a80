//! Snapshot catalog: the snapshots found in a subvolume directory.
//!
//! The storage tools are run outside this crate; their printed output is
//! handed in as plain bytes. The catalog splits that text, feeds every name
//! through the codec and silently drops what does not parse — a directory
//! may hold unrelated entries, and an unknown name is skipped, never an
//! error.

use vstd::prelude::*;

use crate::codec::{format_spec, parse, parse_spec, valid_id, SnapshotId, SnapshotIdView};
use crate::text::{
    bytes_eq, copy_bytes, lemma_deep_view_is_views, lines_from, split_lines, split_tokens,
    tokens_from, trim, trim_spec, DOT,
};

verus! {

/// A catalog entry: a parsed identifier, the on-disk name it came from, and
/// the names of the snapshots taken of this subvolume, as the storage layer
/// reports them.
pub struct Snapshot {
    pub id: SnapshotId,
    pub name: Vec<u8>,
    pub children: Vec<Vec<u8>>,
}

/// Mathematical model of a catalog entry.
pub struct SnapshotView {
    pub id: SnapshotIdView,
    pub name: Seq<u8>,
    pub children: Seq<Seq<u8>>,
}

impl View for Snapshot {
    type V = SnapshotView;

    open spec fn view(&self) -> SnapshotView {
        SnapshotView {
            id: self.id@,
            name: self.name@,
            children: self.children.deep_view(),
        }
    }
}

impl DeepView for Snapshot {
    type V = SnapshotView;

    open spec fn deep_view(&self) -> SnapshotView {
        self.view()
    }
}

/// The view of a vector of catalog entries, element by element.
pub proof fn lemma_catalog_deep_view(v: &Vec<Snapshot>)
    ensures
        v.deep_view().len() == v@.len(),
        forall|k: int| 0 <= k < v@.len() ==> v.deep_view()[k] == v@[k]@,
{
}

/// The catalog built from a list of directory entries: every name that
/// parses, in order, the rest dropped.
pub open spec fn catalog_spec(names: Seq<Seq<u8>>) -> Seq<SnapshotView>
    decreases names.len(),
{
    if names.len() == 0 {
        Seq::empty()
    } else {
        let rest = catalog_spec(names.drop_last());
        match parse_spec(names.last()) {
            Some(v) => rest.push(
                SnapshotView { id: v, name: names.last(), children: Seq::empty() },
            ),
            None => rest,
        }
    }
}

/// A well-formed catalog entry: a valid identifier whose recorded name is
/// exactly the identifier's formatted form.
pub open spec fn snapshot_wf(s: SnapshotView) -> bool {
    valid_id(s.id) && s.name == format_spec(s.id)
}

/// Every entry a catalog is built with is well-formed: its identifier is
/// valid and its recorded name formats back from it.
pub proof fn lemma_catalog_entries_wf(names: Seq<Seq<u8>>)
    ensures
        forall|i: int|
            0 <= i < catalog_spec(names).len() ==> snapshot_wf(#[trigger] catalog_spec(names)[i]),
    decreases names.len(),
{
    if names.len() > 0 {
        lemma_catalog_entries_wf(names.drop_last());
        let rest = catalog_spec(names.drop_last());
        match parse_spec(names.last()) {
            Some(v) => {
                crate::codec::lemma_parse_sound(names.last(), v);
                assert forall|i: int|
                    0 <= i < catalog_spec(names).len() implies snapshot_wf(
                    #[trigger] catalog_spec(names)[i],
                ) by {
                    if i < rest.len() {
                        assert(catalog_spec(names)[i] == rest[i]);
                    }
                }
            },
            None => {
            },
        }
    }
}

/// Parses every listed name, keeping the snapshots and dropping the rest.
pub fn build_catalog(names: &Vec<Vec<u8>>) -> (r: Vec<Snapshot>)
    ensures
        r.deep_view() == catalog_spec(names.deep_view()),
{
    let mut out: Vec<Snapshot> = Vec::new();
    let mut i: usize = 0;
    proof {
        lemma_deep_view_is_views(names);
    }
    while i < names.len()
        invariant
            i <= names.len(),
            names.deep_view().len() == names@.len(),
            forall|k: int| 0 <= k < names@.len() ==> names.deep_view()[k] == names@[k]@,
            out.deep_view() == catalog_spec(names.deep_view().take(i as int)),
        decreases names.len() - i,
    {
        let ghost taken: Seq<Seq<u8>> = names.deep_view().take(i as int + 1);
        proof {
            assert(taken.drop_last() =~= names.deep_view().take(i as int));
            assert(taken.last() == names@[i as int]@);
        }
        let ghost before: Seq<SnapshotView> = out.deep_view();
        match parse(&names[i]) {
            Some(id) => {
                let entry = Snapshot { id, name: copy_bytes(&names[i]), children: Vec::new() };
                proof {
                    assert(entry@.children =~= Seq::<Seq<u8>>::empty());
                }
                out.push(entry);
                proof {
                    lemma_catalog_deep_view(&out);
                    assert(out.deep_view() =~= catalog_spec(taken));
                }
            },
            None => {
                proof {
                    assert(out.deep_view() =~= catalog_spec(taken));
                }
            },
        }
        i = i + 1;
    }
    proof {
        assert(names.deep_view().take(names@.len() as int) =~= names.deep_view());
    }
    out
}

/// The names carried by the enumeration tool's listing: the last
/// blank-separated token of every line that holds at least two tokens.
pub open spec fn names_of_lines(ls: Seq<Seq<u8>>) -> Seq<Seq<u8>>
    decreases ls.len(),
{
    if ls.len() == 0 {
        Seq::empty()
    } else {
        let rest = names_of_lines(ls.drop_last());
        let ts = tokens_from(ls.last(), 0);
        if ts.len() >= 2 {
            rest.push(ts.last())
        } else {
            rest
        }
    }
}

pub open spec fn listed_names_spec(output: Seq<u8>) -> Seq<Seq<u8>> {
    names_of_lines(lines_from(output, 0))
}

/// Extracts the subvolume names from the enumeration tool's output: one
/// per line, the name being the line's last field; lines without at least
/// two fields do not describe a subvolume and are skipped.
pub fn names_from_listing(output: &Vec<u8>) -> (r: Vec<Vec<u8>>)
    ensures
        r.deep_view() == listed_names_spec(output@),
{
    let lines = split_lines(output);
    let mut out: Vec<Vec<u8>> = Vec::new();
    let mut i: usize = 0;
    proof {
        lemma_deep_view_is_views(&lines);
    }
    while i < lines.len()
        invariant
            i <= lines.len(),
            lines.deep_view() == lines_from(output@, 0),
            lines.deep_view().len() == lines@.len(),
            forall|k: int| 0 <= k < lines@.len() ==> lines.deep_view()[k] == lines@[k]@,
            out.deep_view() == names_of_lines(lines.deep_view().take(i as int)),
        decreases lines.len() - i,
    {
        let ghost taken: Seq<Seq<u8>> = lines.deep_view().take(i as int + 1);
        proof {
            assert(taken.drop_last() =~= lines.deep_view().take(i as int));
            assert(taken.last() == lines@[i as int]@);
        }
        let ghost before: Seq<Seq<u8>> = out.deep_view();
        let toks = split_tokens(&lines[i]);
        proof {
            lemma_deep_view_is_views(&toks);
        }
        if toks.len() >= 2 {
            let t = copy_bytes(&toks[toks.len() - 1]);
            proof {
                assert(t@ == tokens_from(lines@[i as int]@, 0).last());
            }
            out.push(t);
            proof {
                lemma_deep_view_is_views(&out);
                assert(out.deep_view() =~= names_of_lines(taken));
            }
        } else {
            proof {
                assert(out.deep_view() =~= names_of_lines(taken));
            }
        }
        i = i + 1;
    }
    proof {
        assert(lines.deep_view().take(lines@.len() as int) =~= lines.deep_view());
    }
    out
}

/// The names carried by a bare directory listing: every non-empty line.
pub open spec fn names_of_bare_lines(ls: Seq<Seq<u8>>) -> Seq<Seq<u8>>
    decreases ls.len(),
{
    if ls.len() == 0 {
        Seq::empty()
    } else {
        let rest = names_of_bare_lines(ls.drop_last());
        if ls.last().len() > 0 {
            rest.push(ls.last())
        } else {
            rest
        }
    }
}

pub open spec fn bare_names_spec(output: Seq<u8>) -> Seq<Seq<u8>> {
    names_of_bare_lines(lines_from(output, 0))
}

/// Extracts the subvolume names from a one-name-per-line listing; empty
/// lines are skipped.
pub fn names_from_lines(output: &Vec<u8>) -> (r: Vec<Vec<u8>>)
    ensures
        r.deep_view() == bare_names_spec(output@),
{
    let lines = split_lines(output);
    let mut out: Vec<Vec<u8>> = Vec::new();
    let mut i: usize = 0;
    proof {
        lemma_deep_view_is_views(&lines);
    }
    while i < lines.len()
        invariant
            i <= lines.len(),
            lines.deep_view() == lines_from(output@, 0),
            lines.deep_view().len() == lines@.len(),
            forall|k: int| 0 <= k < lines@.len() ==> lines.deep_view()[k] == lines@[k]@,
            out.deep_view() == names_of_bare_lines(lines.deep_view().take(i as int)),
        decreases lines.len() - i,
    {
        let ghost taken: Seq<Seq<u8>> = lines.deep_view().take(i as int + 1);
        proof {
            assert(taken.drop_last() =~= lines.deep_view().take(i as int));
            assert(taken.last() == lines@[i as int]@);
        }
        if lines[i].len() > 0 {
            let t = copy_bytes(&lines[i]);
            out.push(t);
            proof {
                lemma_deep_view_is_views(&out);
                assert(out.deep_view() =~= names_of_bare_lines(taken));
            }
        } else {
            proof {
                assert(out.deep_view() =~= names_of_bare_lines(taken));
            }
        }
        i = i + 1;
    }
    proof {
        assert(lines.deep_view().take(lines@.len() as int) =~= lines.deep_view());
    }
    out
}

/// The live root's identity as the inspection tool prints it: the first
/// output line, trimmed; empty output carries no identity.
pub open spec fn current_id_spec(output: Seq<u8>) -> Option<Seq<u8>> {
    if output.len() == 0 {
        None
    } else {
        Some(trim_spec(lines_from(output, 0)[0]))
    }
}

/// Reads the live root's identity out of the inspection tool's output.
pub fn get_current_id(output: &Vec<u8>) -> (r: Option<Vec<u8>>)
    ensures
        match r {
            Some(id) => current_id_spec(output@) == Some(id@),
            None => current_id_spec(output@) is None,
        },
{
    if output.len() == 0 {
        return None;
    }
    let lines = split_lines(output);
    proof {
        lemma_deep_view_is_views(&lines);
        assert(lines_from(output@, 0).len() >= 1);
    }
    let first = trim(&lines[0]);
    Some(first)
}

/// The default subvolume as the report tool prints it: the last
/// blank-separated token of its output, or nothing when the output holds
/// no token at all.
pub open spec fn default_subvolume_spec(output: Seq<u8>) -> Option<Seq<u8>> {
    let ts = tokens_from(output, 0);
    if ts.len() == 0 {
        None
    } else {
        Some(ts.last())
    }
}

/// Reads the default subvolume's name out of the report tool's output.
pub fn default_subvolume(output: &Vec<u8>) -> (r: Option<Vec<u8>>)
    ensures
        match r {
            Some(v) => default_subvolume_spec(output@) == Some(v@),
            None => default_subvolume_spec(output@) is None,
        },
{
    let toks = split_tokens(output);
    proof {
        lemma_deep_view_is_views(&toks);
    }
    if toks.len() == 0 {
        None
    } else {
        Some(copy_bytes(&toks[toks.len() - 1]))
    }
}

/// The token list that an uninterpreted text field of the storage tool's
/// report unpacks to; which field is captured is fixed by the pattern
/// handed to the capture call.
pub uninterp spec fn capture_one_of(pattern: Seq<char>, text: Seq<char>) -> Option<Seq<u8>>;

/// Relies on `regex::Regex::new` and `regex::Regex::captures`: for a fixed
/// pattern, the leftmost match and its first capture group are a function
/// of the pattern and the haystack alone.
#[verifier::external_body]
fn regex_capture_one(pattern: &str, text: &str) -> (r: Option<Vec<u8>>)
    ensures
        match r {
            Some(v) => capture_one_of(pattern@, text@) == Some(v@),
            None => capture_one_of(pattern@, text@) is None,
        },
{
    regex::Regex::new(pattern)
        .ok()
        .and_then(|re| re.captures(text))
        .and_then(|caps| caps.get(1))
        .map(|m| m.as_str().as_bytes().to_vec())
}

/// The snapshot names recorded against a subvolume in the detail report:
/// the names listed in its snapshot field, or none when the field is
/// missing.
pub open spec fn children_spec(details: Seq<char>) -> Seq<Seq<u8>> {
    match capture_one_of("Snapshot\\(s\\):\\s+((?:\\s*\\S+)*)\\s*Quota"@, details) {
        Some(section) => tokens_from(section, 0),
        None => Seq::empty(),
    }
}

/// Reads out of a subvolume's detail report the names of the snapshots
/// taken of it. A report without the field yields no names rather than an
/// error.
pub fn snapshot_children(details: &str) -> (r: Vec<Vec<u8>>)
    ensures
        r.deep_view() == children_spec(details@),
{
    match regex_capture_one("Snapshot\\(s\\):\\s+((?:\\s*\\S+)*)\\s*Quota", details) {
        Some(section) => split_tokens(&section),
        None => {
            let r: Vec<Vec<u8>> = Vec::new();
            proof {
                assert(r.deep_view() =~= Seq::<Seq<u8>>::empty());
            }
            r
        },
    }
}

pub open spec fn contains_name(names: Seq<Seq<u8>>, name: Seq<u8>) -> bool {
    exists|k: int| 0 <= k < names.len() && names[k] == name
}

/// Whether `name` occurs in `names`.
pub fn contains_bytes(names: &Vec<Vec<u8>>, name: &Vec<u8>) -> (r: bool)
    ensures
        r == contains_name(names.deep_view(), name@),
{
    proof {
        lemma_deep_view_is_views(names);
    }
    let mut k: usize = 0;
    while k < names.len()
        invariant
            k <= names.len(),
            names.deep_view().len() == names@.len(),
            forall|j: int| 0 <= j < names@.len() ==> names.deep_view()[j] == names@[j]@,
            forall|j: int| 0 <= j < k ==> names.deep_view()[j] != name@,
        decreases names.len() - k,
    {
        if bytes_eq(&names[k], name) {
            proof {
                assert(names.deep_view()[k as int] == name@);
            }
            return true;
        }
        k = k + 1;
    }
    proof {
        assert forall|j: int| 0 <= j < names.deep_view().len() implies names.deep_view()[j]
            != name@ by {}
    }
    false
}

/// Whether the catalog holds a snapshot of this exact name.
pub fn snapshot_exists(catalog: &Vec<Snapshot>, name: &Vec<u8>) -> (r: bool)
    ensures
        r == exists|i: int|
            0 <= i < catalog.deep_view().len() && catalog.deep_view()[i].name == name@,
{
    proof {
        lemma_catalog_deep_view(catalog);
    }
    let mut k: usize = 0;
    while k < catalog.len()
        invariant
            k <= catalog.len(),
            catalog.deep_view().len() == catalog@.len(),
            forall|j: int| 0 <= j < catalog@.len() ==> catalog.deep_view()[j] == catalog@[j]@,
            forall|j: int| 0 <= j < k ==> catalog.deep_view()[j].name != name@,
        decreases catalog.len() - k,
    {
        if bytes_eq(&catalog[k].name, name) {
            proof {
                assert(catalog.deep_view()[k as int].name == name@);
            }
            return true;
        }
        k = k + 1;
    }
    proof {
        assert forall|j: int| 0 <= j < catalog.deep_view().len() implies catalog.deep_view()[j].name
            != name@ by {}
    }
    false
}

/// Which catalog entry the live root was cloned from: the first entry that
/// records the root's identity among its snapshots. `None` is the
/// legitimate answer for a root that is the original base image.
pub fn current_root_lineage(catalog: &Vec<Snapshot>, root_identity: &Vec<u8>) -> (r: Option<
    usize,
>)
    ensures
        match r {
            Some(i) => 0 <= i < catalog.deep_view().len() && contains_name(
                catalog.deep_view()[i as int].children,
                root_identity@,
            ) && forall|j: int|
                0 <= j < i ==> !contains_name(
                    catalog.deep_view()[j].children,
                    root_identity@,
                ),
            None => forall|j: int|
                0 <= j < catalog.deep_view().len() ==> !contains_name(
                    catalog.deep_view()[j].children,
                    root_identity@,
                ),
        },
{
    proof {
        lemma_catalog_deep_view(catalog);
    }
    let mut k: usize = 0;
    while k < catalog.len()
        invariant
            k <= catalog.len(),
            catalog.deep_view().len() == catalog@.len(),
            forall|j: int| 0 <= j < catalog@.len() ==> catalog.deep_view()[j] == catalog@[j]@,
            forall|j: int|
                0 <= j < k ==> !contains_name(catalog.deep_view()[j].children, root_identity@),
        decreases catalog.len() - k,
    {
        if contains_bytes(&catalog[k].children, root_identity) {
            return Some(k);
        }
        k = k + 1;
    }
    None
}

/// The loader entry file name for a snapshot: its name followed by
/// `.conf`.
pub open spec fn entry_file_name_spec(name: Seq<u8>) -> Seq<u8> {
    name + seq![DOT, 'c' as u8, 'o' as u8, 'n' as u8, 'f' as u8]
}

/// Builds the loader entry file name for a snapshot name.
pub fn entry_file_name(name: &Vec<u8>) -> (r: Vec<u8>)
    ensures
        r@ == entry_file_name_spec(name@),
{
    let mut out = copy_bytes(name);
    out.push(DOT);
    out.push('c' as u8);
    out.push('o' as u8);
    out.push('n' as u8);
    out.push('f' as u8);
    proof {
        assert(out@ =~= entry_file_name_spec(name@));
    }
    out
}

} // verus!
