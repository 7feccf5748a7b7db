//! The data shape and the listing order of the directory-tree collaborator.
//!
//! Walking the filesystem is a host-side pass-through; what stands here is
//! the tree it hands to callers, and the rule for the order a directory's
//! entries are listed in: directories before files, each group by name,
//! case-insensitively.

use vstd::prelude::*;
use vstd::string::{StringExecFns, StrSliceExecFns};
use vstd::seq_lib::group_to_multiset_ensures;
use vstd::multiset::group_multiset_axioms;
use vstd::utf8::char_u32_cast;

verus! {

/// One node of a directory listing: directories carry their children (empty
/// when unread or beyond the requested depth), files carry none.
#[derive(Debug)]
pub struct FileNode {
    pub name: String,
    pub path: String,
    pub is_dir: bool,
    pub children: Option<Vec<FileNode>>,
}

/// The lowercased form of a string, exactly as `str::to_lowercase` computes
/// it — a function of the characters alone.
pub uninterp spec fn lower_of(s: Seq<char>) -> Seq<char>;

/// Relies on str::to_lowercase: the result depends on the characters alone.
#[verifier::external_body]
fn lowercase(s: &str) -> (r: String)
    ensures
        r@ == lower_of(s@),
{
    s.to_lowercase()
}

/// Name order as a listing shows it: position by position by code point,
/// with a shorter name before its extensions.
pub open spec fn lex_le(a: Seq<char>, b: Seq<char>) -> bool
    decreases a.len(),
{
    if a.len() == 0 {
        true
    } else if b.len() == 0 {
        false
    } else if a[0] != b[0] {
        (a[0] as u32) < (b[0] as u32)
    } else {
        lex_le(a.drop_first(), b.drop_first())
    }
}

/// Any two names are ordered one way or the other.
proof fn lemma_lex_total(a: Seq<char>, b: Seq<char>)
    ensures
        lex_le(a, b) || lex_le(b, a),
    decreases a.len(),
{
    if a.len() == 0 {
    } else if b.len() == 0 {
    } else if a[0] != b[0] {
        // Distinct characters have distinct code points.
        if (a[0] as u32) == (b[0] as u32) {
            char_u32_cast(a[0], a[0] as u32);
            char_u32_cast(b[0], b[0] as u32);
            assert(false);
        }
    } else {
        lemma_lex_total(a.drop_first(), b.drop_first());
    }
}

/// The name order is transitive.
proof fn lemma_lex_trans(a: Seq<char>, b: Seq<char>, c: Seq<char>)
    requires
        lex_le(a, b),
        lex_le(b, c),
    ensures
        lex_le(a, c),
    decreases a.len(),
{
    broadcast use char_u32_cast;

    if a.len() == 0 {
    } else if b.len() == 0 {
        assert(false);
    } else if c.len() == 0 {
        assert(false);
    } else {
        if a[0] == b[0] && b[0] == c[0] {
            lemma_lex_trans(a.drop_first(), b.drop_first(), c.drop_first());
        } else {
            assert(a[0] != b[0] ==> (a[0] as u32) < (b[0] as u32));
            assert(b[0] != c[0] ==> (b[0] as u32) < (c[0] as u32));
            assert(a[0] == b[0] ==> (a[0] as u32) == (b[0] as u32));
            assert(b[0] == c[0] ==> (b[0] as u32) == (c[0] as u32));
            assert((a[0] as u32) < (c[0] as u32));
            assert(a[0] != c[0]);
        }
    }
}

/// Whether `a` comes at or before `b` in name order.
fn lex_le_exec(a: &str, b: &str) -> (r: bool)
    ensures
        r == lex_le(a@, b@),
{
    let alen = a.unicode_len();
    let blen = b.unicode_len();
    let limit = if alen < blen {
        alen
    } else {
        blen
    };
    let mut i: usize = 0;
    proof {
        assert(a@.skip(0) =~= a@);
        assert(b@.skip(0) =~= b@);
    }
    while i < limit
        invariant
            0 <= i <= limit,
            alen == a@.len(),
            blen == b@.len(),
            limit <= alen,
            limit <= blen,
            limit == alen || limit == blen,
            lex_le(a@, b@) == lex_le(a@.skip(i as int), b@.skip(i as int)),
        decreases limit - i,
    {
        let ca = a.get_char(i);
        let cb = b.get_char(i);
        proof {
            assert(a@.skip(i as int)[0] == a@[i as int]);
            assert(b@.skip(i as int)[0] == b@[i as int]);
            assert(a@.skip(i as int).drop_first() =~= a@.skip(i as int + 1));
            assert(b@.skip(i as int).drop_first() =~= b@.skip(i as int + 1));
        }
        if ca != cb {
            return (ca as u32) < (cb as u32);
        }
        i = i + 1;
    }
    proof {
        if alen <= blen {
            assert(a@.skip(i as int).len() == 0);
        } else {
            assert(b@.skip(i as int).len() == 0);
            assert(a@.skip(i as int).len() > 0);
        }
    }
    alen <= blen
}

/// Entries in listing order: every earlier name at or before every later
/// one, compared lowercased.
pub open spec fn nodes_ordered(s: Seq<FileNode>) -> bool {
    forall|i: int, j: int|
        0 <= i < j < s.len() ==> lex_le(
            lower_of((#[trigger] s[i]).name@),
            lower_of((#[trigger] s[j]).name@),
        )
}

/// Puts one node into an ordered run, keeping the order.
fn insert_node_sorted(run: &mut Vec<FileNode>, node: FileNode)
    requires
        nodes_ordered(old(run)@),
    ensures
        nodes_ordered(final(run)@),
        final(run)@.to_multiset() == old(run)@.to_multiset().insert(node),
        final(run)@.len() == old(run)@.len() + 1,
{
    let ghost pre = run@;
    let key = lowercase(node.name.as_str());
    let n = run.len();
    let mut p: usize = 0;
    loop
        invariant_except_break
            0 <= p <= n,
            n == run@.len(),
            run@ == pre,
            key@ == lower_of(node.name@),
            forall|j: int|
                0 <= j < p ==> lex_le(lower_of((#[trigger] run@[j]).name@), lower_of(node.name@)),
        ensures
            0 <= p <= n,
            n == run@.len(),
            run@ == pre,
            forall|j: int|
                0 <= j < p ==> lex_le(lower_of((#[trigger] run@[j]).name@), lower_of(node.name@)),
            p < n ==> lex_le(lower_of(node.name@), lower_of(run@[p as int].name@)),
        decreases n - p,
    {
        if p == n {
            break;
        }
        let cur = lowercase(run[p].name.as_str());
        if !lex_le_exec(cur.as_str(), key.as_str()) {
            proof {
                lemma_lex_total(lower_of(run@[p as int].name@), lower_of(node.name@));
            }
            break;
        }
        p = p + 1;
    }
    run.insert(p, node);
    proof {
        broadcast use group_to_multiset_ensures, group_multiset_axioms;

        assert(run@.remove(p as int) =~= pre);
        assert(run@[p as int] == node);
        assert(run@.to_multiset().remove(node) =~= pre.to_multiset());
        assert(run@.to_multiset().contains(node)) by {
            assert(run@.contains(node));
        }
        assert(run@.to_multiset() =~= pre.to_multiset().insert(node));
        assert forall|i: int, j: int| 0 <= i < j < run@.len() implies lex_le(
            lower_of((#[trigger] run@[i]).name@),
            lower_of((#[trigger] run@[j]).name@),
        ) by {
            let pi = if i < p as int {
                i
            } else {
                i - 1
            };
            let pj = if j < p as int {
                j
            } else {
                j - 1
            };
            if i < p as int {
                assert(run@[i] == pre[i]);
            }
            if j > p as int {
                assert(run@[j] == pre[j - 1]);
            }
            if i == p as int && j > p as int {
                // The node stands at or before everything from position p on.
                assert(lex_le(lower_of(node.name@), lower_of(pre[p as int].name@)));
                if j - 1 > p as int {
                    lemma_lex_trans(
                        lower_of(node.name@),
                        lower_of(pre[p as int].name@),
                        lower_of(pre[j - 1].name@),
                    );
                }
            }
        }
    }
}

/// The nodes of `v`, in listing order.
fn sort_nodes(v: Vec<FileNode>) -> (r: Vec<FileNode>)
    ensures
        r@.to_multiset() == v@.to_multiset(),
        nodes_ordered(r@),
        r@.len() == v@.len(),
{
    let ghost v0 = v@;
    let mut v = v;
    let mut run: Vec<FileNode> = Vec::new();
    proof {
        broadcast use group_to_multiset_ensures, group_multiset_axioms;

        assert(run@.to_multiset().add(v@.to_multiset()) =~= v0.to_multiset());
    }
    while v.len() > 0
        invariant
            nodes_ordered(run@),
            run@.to_multiset().add(v@.to_multiset()) == v0.to_multiset(),
            run@.len() + v@.len() == v0.len(),
        decreases v@.len(),
    {
        let ghost vpre = v@;
        let ghost runpre = run@;
        let node = match v.pop() {
            Some(node) => node,
            None => {
                proof {
                    assert(false);
                }
                return run;
            },
        };
        proof {
            broadcast use group_to_multiset_ensures, group_multiset_axioms;

            assert(vpre =~= v@.push(node));
            assert(vpre.to_multiset() =~= v@.to_multiset().insert(node));
        }
        insert_node_sorted(&mut run, node);
        proof {
            broadcast use group_multiset_axioms;

            assert(run@.to_multiset().add(v@.to_multiset()) =~= runpre.to_multiset().add(
                vpre.to_multiset(),
            ));
        }
    }
    run
}

/// The listing order of a directory's entries: the directories first, then
/// the files, each group ordered by name, case-insensitively. Both groups
/// are kept whole — same length, same entries.
pub fn order_children(dirs: Vec<FileNode>, files: Vec<FileNode>) -> (r: Vec<FileNode>)
    ensures
        r@.len() == dirs@.len() + files@.len(),
        r@.subrange(0, dirs@.len() as int).to_multiset() == dirs@.to_multiset(),
        r@.subrange(dirs@.len() as int, r@.len() as int).to_multiset() == files@.to_multiset(),
        nodes_ordered(r@.subrange(0, dirs@.len() as int)),
        nodes_ordered(r@.subrange(dirs@.len() as int, r@.len() as int)),
{
    let ghost dlen = dirs@.len();
    let mut sorted_dirs = sort_nodes(dirs);
    let mut sorted_files = sort_nodes(files);
    let ghost sd = sorted_dirs@;
    let ghost sf = sorted_files@;
    sorted_dirs.append(&mut sorted_files);
    proof {
        assert(sorted_dirs@ =~= sd + sf);
        assert(sorted_dirs@.subrange(0, sd.len() as int) =~= sd);
        assert(sorted_dirs@.subrange(sd.len() as int, sorted_dirs@.len() as int) =~= sf);
    }
    sorted_dirs
}

} // verus!
