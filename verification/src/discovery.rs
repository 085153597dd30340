//! Which files under the Codex home are session logs: the directories
//! searched, what each directory entry leads to, and the ordered list of
//! logs found.
use vstd::prelude::*;
use crate::launcher::texts;
use crate::text::owned;

verus! {

/// The directories under the Codex home that hold session logs.
pub open spec fn session_directories_spec() -> Seq<Seq<char>> {
    seq!["sessions"@, "archived_sessions"@]
}

pub fn session_directories() -> (r: Vec<String>)
    ensures
        texts(r@) == session_directories_spec(),
{
    let mut r: Vec<String> = Vec::new();
    r.push(owned("sessions"));
    r.push(owned("archived_sessions"));
    proof {
        assert(texts(r@) =~= session_directories_spec());
    }
    r
}

/// What a directory entry is, as the file system reports it.
#[derive(Debug, Clone, PartialEq)]
pub enum EntryKind {
    Directory,
    /// A file, and whether its extension is `jsonl`.
    File { jsonl: bool },
    /// A symbolic link: its canonical target where it resolves, whether
    /// that lies inside the Codex home, whether it is a directory, and
    /// whether its extension is `jsonl`.
    Link { target: Option<String>, inside_home: bool, target_is_dir: bool, target_jsonl: bool },
}

/// What the walk does with an entry.
#[derive(Debug, Clone, PartialEq)]
pub enum VisitAction {
    /// Walk into this directory.
    Descend(String),
    /// Keep this file (made canonical by the caller).
    Collect(String),
    Skip,
}

pub enum VisitModel {
    Descend(Seq<char>),
    Collect(Seq<char>),
    Skip,
}

pub open spec fn visit_view(a: VisitAction) -> VisitModel {
    match a {
        VisitAction::Descend(p) => VisitModel::Descend(p@),
        VisitAction::Collect(p) => VisitModel::Collect(p@),
        VisitAction::Skip => VisitModel::Skip,
    }
}

/// Directories are walked and `.jsonl` files kept; a link is followed only
/// when it resolves inside the Codex home, and then stands for its target.
pub open spec fn visit_action_spec(path: Seq<char>, kind: EntryKind) -> VisitModel {
    match kind {
        EntryKind::Directory => VisitModel::Descend(path),
        EntryKind::File { jsonl } => if jsonl {
            VisitModel::Collect(path)
        } else {
            VisitModel::Skip
        },
        EntryKind::Link { target, inside_home, target_is_dir, target_jsonl } => match target {
            Some(t) => if !inside_home {
                VisitModel::Skip
            } else if target_is_dir {
                VisitModel::Descend(t@)
            } else if target_jsonl {
                VisitModel::Collect(t@)
            } else {
                VisitModel::Skip
            },
            None => VisitModel::Skip,
        },
    }
}

/// What the walk does with the entry at `path`.
pub fn visit_action(path: String, kind: EntryKind) -> (r: VisitAction)
    ensures
        visit_view(r) == visit_action_spec(path@, kind),
{
    match kind {
        EntryKind::Directory => VisitAction::Descend(path),
        EntryKind::File { jsonl } => if jsonl {
            VisitAction::Collect(path)
        } else {
            VisitAction::Skip
        },
        EntryKind::Link { target, inside_home, target_is_dir, target_jsonl } => match target {
            Some(t) => if !inside_home {
                VisitAction::Skip
            } else if target_is_dir {
                VisitAction::Descend(t)
            } else if target_jsonl {
                VisitAction::Collect(t)
            } else {
                VisitAction::Skip
            },
            None => VisitAction::Skip,
        },
    }
}

/// Whether `Path::new(a) < Path::new(b)`: paths ordered component by
/// component, by the platform's path rules.
pub uninterp spec fn path_precedes(a: Seq<char>, b: Seq<char>) -> bool;

/// `Path::new(a) < Path::new(b)`.
///
/// Trusted: the result is named `path_precedes` of the two texts; the
/// standard library documents that `Path`'s order is a total order, so no
/// path precedes itself.
#[verifier::external_body]
fn path_less(a: &String, b: &String) -> (r: bool)
    ensures
        r == path_precedes(a@, b@),
        a@ == b@ ==> !r,
{
    std::path::Path::new(a.as_str()) < std::path::Path::new(b.as_str())
}

/// Neither path precedes the other: they are the same path.
pub open spec fn same_path(a: Seq<char>, b: Seq<char>) -> bool {
    !path_precedes(a, b) && !path_precedes(b, a)
}

/// Each path follows the one before it.
pub open spec fn ascending_paths(v: Seq<Seq<char>>) -> bool {
    forall|i: int| 0 <= i < v.len() - 1 ==> path_precedes(#[trigger] v[i], v[i + 1])
}

/// The path `f` is in `v`, or the same path as one in `v`.
pub open spec fn covered(v: Seq<Seq<char>>, f: Seq<char>) -> bool {
    exists|i: int| 0 <= i < v.len() && (v[i] == f || same_path(v[i], f))
}

/// The logs found, in path order, each once: every kept path is one that
/// was found, and every path found is kept or the same path as one kept.
pub fn collected_files(found: Vec<String>) -> (r: Vec<String>)
    ensures
        ascending_paths(texts(r@)),
        forall|i: int| 0 <= i < r@.len() ==> texts(found@).contains(#[trigger] texts(r@)[i]),
        forall|k: int| 0 <= k < found@.len() ==> covered(texts(r@), #[trigger] texts(found@)[k]),
{
    let mut out: Vec<String> = Vec::new();
    let mut k: usize = 0;
    while k < found.len()
        invariant
            k <= found@.len(),
            ascending_paths(texts(out@)),
            forall|i: int| 0 <= i < out@.len() ==> texts(found@).contains(#[trigger] texts(out@)[i]),
            forall|m: int| 0 <= m < k ==> covered(texts(out@), #[trigger] texts(found@)[m]),
        decreases found@.len() - k,
    {
        let x = &found[k];
        let mut j: usize = 0;
        while j < out.len() && path_less(&out[j], x)
            invariant
                j <= out@.len(),
                j > 0 ==> path_precedes(texts(out@)[j - 1], x@),
            decreases out@.len() - j,
        {
            j += 1;
        }
        proof {
            assert(texts(found@)[k as int] == x@);
        }
        if j < out.len() && !path_less(x, &out[j]) {
            proof {
                assert(same_path(texts(out@)[j as int], texts(found@)[k as int]));
                assert(covered(texts(out@), texts(found@)[k as int]));
            }
        } else {
            let ghost before = texts(out@);
            out.insert(j, crate::domain::copy_string(x));
            proof {
                let after = texts(out@);
                assert(after =~= before.insert(j as int, x@));
                assert forall|i: int| 0 <= i < after.len() - 1 implies path_precedes(
                    #[trigger] after[i],
                    after[i + 1],
                ) by {
                    if i < j as int - 1 {
                        assert(after[i] == before[i] && after[i + 1] == before[i + 1]);
                    } else if i == j as int - 1 {
                    } else if i == j as int {
                    } else {
                        assert(after[i] == before[i - 1] && after[i + 1] == before[i]);
                    }
                }
                assert forall|i: int| 0 <= i < after.len() implies texts(found@).contains(
                    #[trigger] after[i],
                ) by {
                    if i < j {
                        assert(after[i] == before[i]);
                    } else if i > j {
                        assert(after[i] == before[i - 1]);
                    } else {
                        assert(texts(found@)[k as int] == x@);
                    }
                }
                assert forall|m: int| 0 <= m < k + 1 implies covered(after, #[trigger] texts(found@)[m]) by {
                    if m == k {
                        assert(after[j as int] == texts(found@)[m]);
                    } else {
                        let i0 = choose|i: int|
                            0 <= i < before.len() && (before[i] == texts(found@)[m] || same_path(
                                before[i],
                                texts(found@)[m],
                            ));
                        if i0 < j {
                            assert(after[i0] == before[i0]);
                        } else {
                            assert(after[i0 + 1] == before[i0]);
                        }
                    }
                }
            }
        }
        k += 1;
    }
    out
}

} // verus!
