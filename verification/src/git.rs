//! Data shapes and pure mappings for the version-control collaborator.
//!
//! Repository access itself is a host-side pass-through over a version
//! control library; what stands here is the data it returns to callers and
//! the mappings from its raw flags to the labels callers see.

use vstd::prelude::*;
use vstd::string::{StringExecFns, StrSliceExecFns};

verus! {

/// One changed file in the repository's status, with its line counts.
#[derive(Clone, Debug)]
pub struct FileChange {
    pub path: String,
    pub status: String,
    pub additions: usize,
    pub deletions: usize,
    pub is_staged: bool,
}

/// One hunk of a file's diff.
#[derive(Clone, Debug)]
pub struct DiffHunk {
    pub header: String,
    pub old_start: u32,
    pub new_start: u32,
    pub old_lines: u32,
    pub new_lines: u32,
    pub lines: Vec<DiffLineInfo>,
}

/// One line of a diff hunk.
#[derive(Clone, Debug)]
pub struct DiffLineInfo {
    pub content: String,
    pub origin: String,
    pub old_lineno: Option<u32>,
    pub new_lineno: Option<u32>,
}

/// The diff of one file.
#[derive(Clone, Debug)]
pub struct FileDiff {
    pub path: String,
    pub hunks: Vec<DiffHunk>,
    pub is_binary: bool,
}

/// The status label for a file's change flags, in that priority order.
pub open spec fn spec_status_string(is_new: bool, is_deleted: bool, is_renamed: bool) -> Seq<
    char,
> {
    if is_new {
        "added"@
    } else if is_deleted {
        "deleted"@
    } else if is_renamed {
        "renamed"@
    } else {
        "modified"@
    }
}

/// Maps a file's change flags to its status label: added, deleted, renamed
/// or modified, in that priority order.
pub fn map_status_string(is_new: bool, is_deleted: bool, is_renamed: bool) -> (r: &'static str)
    ensures
        r@ == spec_status_string(is_new, is_deleted, is_renamed),
{
    if is_new {
        "added"
    } else if is_deleted {
        "deleted"
    } else if is_renamed {
        "renamed"
    } else {
        "modified"
    }
}

/// True when any of a file's index-side (staged) flags is set.
pub open spec fn staged_flag(
    index_new: bool,
    index_modified: bool,
    index_deleted: bool,
    index_renamed: bool,
) -> bool {
    index_new || index_modified || index_deleted || index_renamed
}

/// True when any of a file's working-tree (unstaged) flags is set.
pub open spec fn unstaged_flag(
    wt_new: bool,
    wt_modified: bool,
    wt_deleted: bool,
    wt_renamed: bool,
) -> bool {
    wt_new || wt_modified || wt_deleted || wt_renamed
}

/// The status entries one file contributes, given its raw repository flags
/// and its line counts from the staged and unstaged diffs: one staged entry
/// when any index flag is set, then one unstaged entry when any working-tree
/// flag is set, each labelled by its own flags and carrying its own counts.
pub fn status_entries(
    path: &str,
    index_new: bool,
    index_modified: bool,
    index_deleted: bool,
    index_renamed: bool,
    wt_new: bool,
    wt_modified: bool,
    wt_deleted: bool,
    wt_renamed: bool,
    staged_counts: (usize, usize),
    unstaged_counts: (usize, usize),
) -> (r: Vec<FileChange>)
    ensures
        r@.len() == (if staged_flag(index_new, index_modified, index_deleted, index_renamed) {
            1int
        } else {
            0int
        }) + (if unstaged_flag(wt_new, wt_modified, wt_deleted, wt_renamed) {
            1int
        } else {
            0int
        }),
        staged_flag(index_new, index_modified, index_deleted, index_renamed) ==> {
            let e = r@[0];
            &&& e.path@ == path@
            &&& e.status@ == spec_status_string(index_new, index_deleted, index_renamed)
            &&& e.additions == staged_counts.0
            &&& e.deletions == staged_counts.1
            &&& e.is_staged
        },
        unstaged_flag(wt_new, wt_modified, wt_deleted, wt_renamed) ==> {
            let e = r@[r@.len() - 1];
            &&& e.path@ == path@
            &&& e.status@ == spec_status_string(wt_new, wt_deleted, wt_renamed)
            &&& e.additions == unstaged_counts.0
            &&& e.deletions == unstaged_counts.1
            &&& !e.is_staged
        },
{
    let mut r: Vec<FileChange> = Vec::new();
    if index_new || index_modified || index_deleted || index_renamed {
        let status = map_status_string(index_new, index_deleted, index_renamed);
        r.push(
            FileChange {
                path: path.to_owned(),
                status: status.to_owned(),
                additions: staged_counts.0,
                deletions: staged_counts.1,
                is_staged: true,
            },
        );
    }
    if wt_new || wt_modified || wt_deleted || wt_renamed {
        let status = map_status_string(wt_new, wt_deleted, wt_renamed);
        r.push(
            FileChange {
                path: path.to_owned(),
                status: status.to_owned(),
                additions: unstaged_counts.0,
                deletions: unstaged_counts.1,
                is_staged: false,
            },
        );
    }
    r
}

/// How many of the origin markers are the given one.
pub open spec fn count_origin(origins: Seq<char>, which: char) -> int
    decreases origins.len(),
{
    if origins.len() == 0 {
        0
    } else {
        count_origin(origins.drop_last(), which) + (if origins.last() == which {
            1int
        } else {
            0int
        })
    }
}

/// Counts a diff's added and deleted lines from its line-origin markers:
/// additions are the `+` markers, deletions the `-` markers.
pub fn count_diff_lines(origins: &Vec<char>) -> (r: (usize, usize))
    ensures
        r.0 == count_origin(origins@, '+'),
        r.1 == count_origin(origins@, '-'),
{
    let mut adds: usize = 0;
    let mut dels: usize = 0;
    let n = origins.len();
    let mut i: usize = 0;
    while i < n
        invariant
            0 <= i <= n,
            n == origins@.len(),
            adds == count_origin(origins@.take(i as int), '+'),
            dels == count_origin(origins@.take(i as int), '-'),
            adds <= i,
            dels <= i,
        decreases n - i,
    {
        let c = origins[i];
        proof {
            assert(origins@.take(i as int + 1).drop_last() =~= origins@.take(i as int));
            assert(origins@.take(i as int + 1).last() == origins@[i as int]);
        }
        if c == '+' {
            adds = adds + 1;
        } else if c == '-' {
            dels = dels + 1;
        }
        i = i + 1;
    }
    proof {
        assert(origins@.take(n as int) =~= origins@);
        lemma_count_origin_bound(origins@, '+');
        lemma_count_origin_bound(origins@, '-');
    }
    (adds, dels)
}

proof fn lemma_count_origin_bound(origins: Seq<char>, which: char)
    ensures
        0 <= count_origin(origins, which) <= origins.len(),
    decreases origins.len(),
{
    if origins.len() > 0 {
        lemma_count_origin_bound(origins.drop_last(), which);
    }
}

/// The branch label shown for a detached HEAD: the first seven characters
/// of the commit hash, in parentheses. A commit hash is hexadecimal text,
/// so always long enough and plain characters.
pub fn detached_head_label(commit_hex: &str) -> (r: String)
    requires
        commit_hex.is_ascii(),
        commit_hex@.len() >= 7,
    ensures
        r@ == "("@ + commit_hex@.subrange(0, 7) + ")"@,
{
    let short = commit_hex.substring_ascii(0, 7);
    String::from_str("(").concat(short).concat(")")
}

/// The label for a diff line's origin marker: additions and deletions keep
/// their sign, every other origin (context and the like) becomes a space.
pub fn origin_label(origin: char) -> (r: &'static str)
    ensures
        origin == '+' ==> r@ == "+"@,
        origin == '-' ==> r@ == "-"@,
        (origin != '+' && origin != '-') ==> r@ == " "@,
{
    if origin == '+' {
        "+"
    } else if origin == '-' {
        "-"
    } else {
        " "
    }
}

} // verus!
