//! The PTY session manager: a registry of live sessions and the four
//! operations on it — create, write, resize, close.
//!
//! The registry is modelled by the map from session identifier to stored
//! geometry ([`PtyManager::table`]); every operation's contract says exactly
//! how it changes that map and which error it returns on which input. The
//! host serializes calls (one lock around the manager), so each operation
//! is specified as a single atomic transition.

use vstd::prelude::*;
use vstd::string::StringExecFns;
use portable_pty::CommandBuilder;
use crate::error::AppError;
use crate::pty::{
    builder_cwd, builder_env, builder_env_is_set, builder_env_lookup, builder_env_value,
    builder_workdir, kill_child, open_native_pty, resize_master, spawn_shell, upper_ascii_key,
    write_master, flush_master, PtyOutput, PtyResources,
};
use crate::validate::{bad_cols_msg, bad_rows_msg, dims_ok, uuid_syntax, validate_dimensions};

verus! {

/// One live session: the operating-system resources it owns and its current
/// geometry, cached so callers can be answered without asking the kernel.
pub struct PtySession {
    pub resources: PtyResources,
    pub cols: u16,
    pub rows: u16,
}

/// The registry of live sessions, keyed by identifier.
pub struct PtyManager {
    sessions: Vec<(String, PtySession)>,
}

/// The map view of a session list: identifier to stored geometry. A later
/// entry with the same identifier would win, but well-formed lists
/// (`distinct_ids`) never hold two.
pub open spec fn table_of(entries: Seq<(String, PtySession)>) -> Map<Seq<char>, (u16, u16)>
    decreases entries.len(),
{
    if entries.len() == 0 {
        Map::<Seq<char>, (u16, u16)>::empty()
    } else {
        table_of(entries.drop_last()).insert(
            entries.last().0@,
            (entries.last().1.cols, entries.last().1.rows),
        )
    }
}

/// Whether some entry carries the identifier.
pub open spec fn contains_id(entries: Seq<(String, PtySession)>, id: Seq<char>) -> bool {
    exists|i: int| 0 <= i < entries.len() && (#[trigger] entries[i].0@) == id
}

/// No two entries share an identifier.
pub open spec fn distinct_ids(entries: Seq<(String, PtySession)>) -> bool {
    forall|i: int, j: int|
        0 <= i < j < entries.len() ==> (#[trigger] entries[i].0@) != (#[trigger] entries[j].0@)
}

/// The error message for an operation on an identifier with no live session.
pub open spec fn not_found_msg(id: Seq<char>) -> Seq<char> {
    "Session "@ + id + " not found"@
}

// ---------------------------------------------------------------------------
// Lemmas connecting the entry list to its map view
// ---------------------------------------------------------------------------

proof fn lemma_table_dom(entries: Seq<(String, PtySession)>, id: Seq<char>)
    ensures
        table_of(entries).dom().contains(id) <==> contains_id(entries, id),
    decreases entries.len(),
{
    if entries.len() > 0 {
        let dl = entries.drop_last();
        lemma_table_dom(dl, id);
        if entries.last().0@ == id {
            assert(entries[entries.len() - 1].0@ == id);
            assert(contains_id(entries, id));
        } else {
            if contains_id(entries, id) {
                let i = choose|i: int| 0 <= i < entries.len() && (#[trigger] entries[i].0@) == id;
                assert(i < entries.len() - 1);
                assert(dl[i].0@ == id);
                assert(contains_id(dl, id));
            }
            if contains_id(dl, id) {
                let i = choose|i: int| 0 <= i < dl.len() && (#[trigger] dl[i].0@) == id;
                assert(entries[i].0@ == id);
                assert(contains_id(entries, id));
            }
        }
    }
}

proof fn lemma_table_geom(entries: Seq<(String, PtySession)>, i: int)
    requires
        distinct_ids(entries),
        0 <= i < entries.len(),
    ensures
        table_of(entries).dom().contains(entries[i].0@),
        table_of(entries)[entries[i].0@] == (entries[i].1.cols, entries[i].1.rows),
    decreases entries.len(),
{
    if i == entries.len() - 1 {
    } else {
        let dl = entries.drop_last();
        assert(dl[i] == entries[i]);
        lemma_table_geom(dl, i);
        assert(entries.last().0@ != entries[i].0@);
    }
}

proof fn lemma_distinct_drop_last(entries: Seq<(String, PtySession)>)
    requires
        distinct_ids(entries),
        entries.len() > 0,
    ensures
        distinct_ids(entries.drop_last()),
{
    let dl = entries.drop_last();
    assert forall|i: int, j: int| 0 <= i < j < dl.len() implies (#[trigger] dl[i].0@)
        != (#[trigger] dl[j].0@) by {
        assert(entries[i].0@ != entries[j].0@);
    }
}

proof fn lemma_distinct_remove(entries: Seq<(String, PtySession)>, k: int)
    requires
        distinct_ids(entries),
        0 <= k < entries.len(),
    ensures
        distinct_ids(entries.remove(k)),
        !contains_id(entries.remove(k), entries[k].0@),
{
    let r = entries.remove(k);
    assert forall|i: int, j: int| 0 <= i < j < r.len() implies (#[trigger] r[i].0@)
        != (#[trigger] r[j].0@) by {
        let i0 = if i < k {
            i
        } else {
            i + 1
        };
        let j0 = if j < k {
            j
        } else {
            j + 1
        };
        assert(r[i] == entries[i0]);
        assert(r[j] == entries[j0]);
        assert(entries[i0].0@ != entries[j0].0@);
    }
    if contains_id(r, entries[k].0@) {
        let i = choose|i: int| 0 <= i < r.len() && (#[trigger] r[i].0@) == entries[k].0@;
        let i0 = if i < k {
            i
        } else {
            i + 1
        };
        assert(r[i] == entries[i0]);
        assert(i0 != k);
        assert(entries[i0].0@ != entries[k].0@);
        assert(false);
    }
}

proof fn lemma_table_remove(entries: Seq<(String, PtySession)>, k: int)
    requires
        distinct_ids(entries),
        0 <= k < entries.len(),
    ensures
        table_of(entries.remove(k)) == table_of(entries).remove(entries[k].0@),
    decreases entries.len(),
{
    let id = entries[k].0@;
    let dl = entries.drop_last();
    lemma_distinct_drop_last(entries);
    if k == entries.len() - 1 {
        assert(entries.remove(k) =~= dl);
        lemma_table_dom(dl, id);
        assert(!contains_id(dl, id)) by {
            if contains_id(dl, id) {
                let i = choose|i: int| 0 <= i < dl.len() && (#[trigger] dl[i].0@) == id;
                assert(entries[i].0@ == entries[k].0@);
                assert(false);
            }
        }
        assert(table_of(dl) =~= table_of(entries).remove(id));
    } else {
        let r = entries.remove(k);
        assert(r.last() == entries.last());
        assert(r.drop_last() =~= dl.remove(k));
        assert(dl[k] == entries[k]);
        lemma_table_remove(dl, k);
        assert(entries.last().0@ != id);
        assert(table_of(r) == table_of(dl.remove(k)).insert(
            entries.last().0@,
            (entries.last().1.cols, entries.last().1.rows),
        ));
        assert(table_of(dl).remove(id).insert(
            entries.last().0@,
            (entries.last().1.cols, entries.last().1.rows),
        ) =~= table_of(entries).remove(id));
    }
}

proof fn lemma_table_push(entries: Seq<(String, PtySession)>, e: (String, PtySession))
    ensures
        table_of(entries.push(e)) == table_of(entries).insert(e.0@, (e.1.cols, e.1.rows)),
{
    assert(entries.push(e).drop_last() =~= entries);
    assert(entries.push(e).last() == e);
}

proof fn lemma_distinct_push_fresh(entries: Seq<(String, PtySession)>, e: (String, PtySession))
    requires
        distinct_ids(entries),
        !contains_id(entries, e.0@),
    ensures
        distinct_ids(entries.push(e)),
{
    let p = entries.push(e);
    assert forall|i: int, j: int| 0 <= i < j < p.len() implies (#[trigger] p[i].0@)
        != (#[trigger] p[j].0@) by {
        if j < p.len() - 1 {
            assert(entries[i].0@ != entries[j].0@);
        } else {
            assert(p[i] == entries[i]);
            if p[i].0@ == e.0@ {
                assert(contains_id(entries, e.0@));
            }
        }
    }
}

/// Taking an entry out and putting it back with the same identifier and a
/// possibly new geometry updates the map at that identifier alone.
proof fn lemma_remove_push_update(
    entries: Seq<(String, PtySession)>,
    k: int,
    e: (String, PtySession),
)
    requires
        distinct_ids(entries),
        0 <= k < entries.len(),
        e.0@ == entries[k].0@,
    ensures
        distinct_ids(entries.remove(k).push(e)),
        table_of(entries.remove(k).push(e)) == table_of(entries).insert(
            e.0@,
            (e.1.cols, e.1.rows),
        ),
{
    lemma_distinct_remove(entries, k);
    lemma_distinct_push_fresh(entries.remove(k), e);
    lemma_table_remove(entries, k);
    lemma_table_push(entries.remove(k), e);
    assert(table_of(entries).remove(e.0@).insert(e.0@, (e.1.cols, e.1.rows)) =~= table_of(
        entries,
    ).insert(e.0@, (e.1.cols, e.1.rows)));
}

/// Putting an entry back unchanged leaves the map as it was.
proof fn lemma_remove_push_same(entries: Seq<(String, PtySession)>, k: int, e: (String, PtySession))
    requires
        distinct_ids(entries),
        0 <= k < entries.len(),
        e.0@ == entries[k].0@,
        e.1.cols == entries[k].1.cols,
        e.1.rows == entries[k].1.rows,
    ensures
        distinct_ids(entries.remove(k).push(e)),
        table_of(entries.remove(k).push(e)) == table_of(entries),
{
    lemma_remove_push_update(entries, k, e);
    lemma_table_geom(entries, k);
    assert(table_of(entries).insert(e.0@, (e.1.cols, e.1.rows)) =~= table_of(entries));
}

// ---------------------------------------------------------------------------
// Identifier generation
// ---------------------------------------------------------------------------

/// Relies on uuid::Uuid::new_v4 and its Display form: a fresh random
/// version-4 identifier in hyphenated text. Such a string always has
/// identifier syntax — uuid::Uuid::parse_str accepts the hyphenated form.
/// Nothing else is assumed of it; in particular not uniqueness, which the
/// manager checks against its own table.
#[verifier::external_body]
fn generate_session_id() -> (r: String)
    ensures
        uuid_syntax(r@),
{
    uuid::Uuid::new_v4().to_string()
}

// ---------------------------------------------------------------------------
// Preparing the child's command line
// ---------------------------------------------------------------------------

/// The environment variable names a session's command preparation touches
/// are all-capitals and pairwise distinct, so each addresses its own entry
/// of the prepared environment.
proof fn lemma_env_keys_distinct()
    ensures
        upper_ascii_key("TERM"@),
        upper_ascii_key("COLORTERM"@),
        upper_ascii_key("LANG"@),
        upper_ascii_key("HOME"@),
        "TERM"@ != "COLORTERM"@,
        "TERM"@ != "LANG"@,
        "TERM"@ != "HOME"@,
        "COLORTERM"@ != "LANG"@,
        "COLORTERM"@ != "HOME"@,
        "LANG"@ != "HOME"@,
{
    reveal_strlit("TERM");
    reveal_strlit("COLORTERM");
    reveal_strlit("LANG");
    reveal_strlit("HOME");
    assert("TERM"@ != "LANG"@) by {
        assert("TERM"@[0] == 'T');
        assert("LANG"@[0] == 'L');
    }
    assert("TERM"@ != "HOME"@) by {
        assert("TERM"@[0] == 'T');
        assert("HOME"@[0] == 'H');
    }
    assert("LANG"@ != "HOME"@) by {
        assert("LANG"@[0] == 'L');
        assert("HOME"@[0] == 'H');
    }
}

/// Prepares the command a session spawns: the platform's default interactive
/// shell, its terminal advertised as a modern truecolor-capable one, a UTF-8
/// locale injected only when the environment carries none (an existing
/// locale is never overridden), and the working directory resolved in
/// priority order — the caller's directory when given, else the home
/// directory the environment names, else the one the builder started with
/// (for a fresh builder: the inherited default).
pub fn prepare_shell_command(cmd: &mut CommandBuilder, cwd: &Option<String>)
    ensures
        builder_env_lookup(*final(cmd), "TERM"@) == Some("xterm-256color"@),
        builder_env_lookup(*final(cmd), "COLORTERM"@) == Some("truecolor"@),
        builder_env_lookup(*final(cmd), "LANG"@) == (match builder_env_lookup(
            *old(cmd),
            "LANG"@,
        ) {
            Some(ambient) => Some(ambient),
            None => Some("en_US.UTF-8"@),
        }),
        builder_workdir(*final(cmd)) == (match cwd {
            Some(dir) => Some(dir@),
            None => match builder_env_lookup(*old(cmd), "HOME"@) {
                Some(home) => Some(home),
                None => builder_workdir(*old(cmd)),
            },
        }),
{
    proof {
        lemma_env_keys_distinct();
    }
    builder_env(cmd, "TERM", "xterm-256color");
    builder_env(cmd, "COLORTERM", "truecolor");
    // A UTF-8 locale, only where the environment sets none.
    if !builder_env_is_set(cmd, "LANG") {
        builder_env(cmd, "LANG", "en_US.UTF-8");
    }
    match cwd {
        Some(dir) => builder_cwd(cmd, dir.as_str()),
        None => {
            // Fall back to the home directory the environment names; with
            // neither, the working directory is left as it stands.
            match builder_env_value(cmd, "HOME") {
                Some(home) => builder_cwd(cmd, home.as_str()),
                None => {},
            }
        },
    }
}

// ---------------------------------------------------------------------------
// The manager
// ---------------------------------------------------------------------------

impl PtyManager {
    /// The registry as a map: identifier to stored geometry.
    pub closed spec fn table(&self) -> Map<Seq<char>, (u16, u16)> {
        table_of(self.sessions@)
    }

    /// Identifiers are unique across live sessions.
    pub closed spec fn wf(&self) -> bool {
        distinct_ids(self.sessions@)
    }

    /// An empty registry.
    pub fn new() -> (r: PtyManager)
        ensures
            r.wf(),
            r.table() == Map::<Seq<char>, (u16, u16)>::empty(),
    {
        PtyManager { sessions: Vec::new() }
    }

    /// The position of the session with this identifier, if it is live.
    fn find_index(&self, session_id: &str) -> (r: Option<usize>)
        ensures
            match r {
                Some(i) => i < self.sessions@.len() && self.sessions@[i as int].0@ == session_id@,
                None => !contains_id(self.sessions@, session_id@),
            },
    {
        let target: String = session_id.to_owned();
        let n = self.sessions.len();
        let mut i: usize = 0;
        while i < n
            invariant
                0 <= i <= n,
                n == self.sessions@.len(),
                target@ == session_id@,
                forall|j: int| 0 <= j < i ==> (#[trigger] self.sessions@[j].0@) != session_id@,
            decreases n - i,
        {
            if self.sessions[i].0 == target {
                return Some(i);
            }
            i = i + 1;
        }
        None
    }

    /// Opens a pseudo-terminal at the requested geometry, spawns the default
    /// interactive shell attached to it, and registers the session under a
    /// fresh identifier, which is returned together with the read handle the
    /// session's reader worker takes ownership of.
    ///
    /// The shell's environment advertises a truecolor terminal, and a UTF-8
    /// locale is injected only when the environment has none. The working
    /// directory is the caller's when given, otherwise the home directory
    /// the environment names, otherwise the inherited one.
    ///
    /// A rejected geometry never reaches the operating system: no
    /// pseudo-terminal is opened and no process is spawned. Any
    /// operating-system failure aborts the whole call before the session is
    /// registered, so no partial session is ever visible.
    pub fn create_session(&mut self, cols: u16, rows: u16, cwd: Option<String>) -> (r: Result<
        (String, PtyOutput),
        AppError,
    >)
        requires
            old(self).wf(),
        ensures
            final(self).wf(),
            !dims_ok(cols, rows) ==> (r matches Err(AppError::InvalidInput(m)) && m@ == (
            if cols == 0 || cols > 500 {
                bad_cols_msg(cols)
            } else {
                bad_rows_msg(rows)
            })),
            r matches Ok(p) ==> dims_ok(cols, rows) && uuid_syntax(p.0@) && !old(
                self,
            ).table().dom().contains(p.0@) && final(self).table() == old(self).table().insert(
                p.0@,
                (cols, rows),
            ),
            r is Err ==> final(self).table() == old(self).table(),
            (dims_ok(cols, rows) && r is Err) ==> r matches Err(AppError::Pty(_)),
    {
        match validate_dimensions(cols, rows) {
            Err(m) => Err(AppError::InvalidInput(m)),
            Ok(()) => {
                let pair = match open_native_pty(cols, rows) {
                    Ok(p) => p,
                    Err(m) => {
                        return Err(AppError::Pty(m));
                    },
                };
                let mut cmd = CommandBuilder::new_default_prog();
                prepare_shell_command(&mut cmd, &cwd);
                let (resources, output) = match spawn_shell(pair, cmd) {
                    Ok(t) => t,
                    Err(m) => {
                        return Err(AppError::Pty(m));
                    },
                };
                let session_id = generate_session_id();
                match self.find_index(session_id.as_str()) {
                    Some(_) => {
                        // A random identifier collided with a live session;
                        // registering it would break identifier uniqueness.
                        // The freshly acquired resources are dropped.
                        Err(AppError::Pty(String::from_str("session identifier collision")))
                    },
                    None => {
                        proof {
                            lemma_table_dom(self.sessions@, session_id@);
                            lemma_distinct_push_fresh(
                                self.sessions@,
                                (session_id, PtySession { resources, cols, rows }),
                            );
                            lemma_table_push(
                                self.sessions@,
                                (session_id, PtySession { resources, cols, rows }),
                            );
                        }
                        let entry = (session_id.clone(), PtySession { resources, cols, rows });
                        self.sessions.push(entry);
                        Ok((session_id, output))
                    },
                }
            },
        }
    }

    /// Writes the text to the session's input and flushes it, so the bytes
    /// have left this process when the call returns. Fails with NotFound for
    /// an identifier with no live session, and with Io when the operating
    /// system refuses the write or the flush; either way the registry is
    /// unchanged, and the session (when live) stays usable for a retry.
    pub fn write(&mut self, session_id: &str, data: &str) -> (r: Result<(), AppError>)
        requires
            old(self).wf(),
        ensures
            final(self).wf(),
            final(self).table() == old(self).table(),
            !old(self).table().dom().contains(session_id@) ==> (r matches Err(
                AppError::NotFound(m),
            ) && m@ == not_found_msg(session_id@)),
            old(self).table().dom().contains(session_id@) ==> (r is Ok || r matches Err(
                AppError::Io(_),
            )),
    {
        proof {
            lemma_table_dom(self.sessions@, session_id@);
        }
        match self.find_index(session_id) {
            None => Err(
                AppError::NotFound(
                    String::from_str("Session ").concat(session_id).concat(" not found"),
                ),
            ),
            Some(i) => {
                let ghost entries = self.sessions@;
                let (id, mut session) = self.sessions.remove(i);
                let outcome = match write_master(&mut session.resources, data.as_bytes()) {
                    Err(m) => Err(AppError::Io(m)),
                    Ok(()) => match flush_master(&mut session.resources) {
                        Err(m) => Err(AppError::Io(m)),
                        Ok(()) => Ok(()),
                    },
                };
                proof {
                    lemma_remove_push_same(entries, i as int, (id, session));
                }
                self.sessions.push((id, session));
                outcome
            },
        }
    }

    /// Changes the pseudo-terminal's geometry at the kernel and, on success,
    /// the stored one. Fails with NotFound for an identifier with no live
    /// session, and with Pty when the operating system refuses the change —
    /// the stored geometry is then left exactly as it was.
    pub fn resize(&mut self, session_id: &str, cols: u16, rows: u16) -> (r: Result<(), AppError>)
        requires
            old(self).wf(),
        ensures
            final(self).wf(),
            !old(self).table().dom().contains(session_id@) ==> (r matches Err(
                AppError::NotFound(m),
            ) && m@ == not_found_msg(session_id@) && final(self).table() == old(self).table()),
            (old(self).table().dom().contains(session_id@) && r is Ok) ==> final(self).table()
                == old(self).table().insert(session_id@, (cols, rows)),
            r is Err ==> final(self).table() == old(self).table(),
            (old(self).table().dom().contains(session_id@) && r is Err) ==> r matches Err(
                AppError::Pty(_),
            ),
    {
        proof {
            lemma_table_dom(self.sessions@, session_id@);
        }
        match self.find_index(session_id) {
            None => Err(
                AppError::NotFound(
                    String::from_str("Session ").concat(session_id).concat(" not found"),
                ),
            ),
            Some(i) => {
                let ghost entries = self.sessions@;
                let (id, mut session) = self.sessions.remove(i);
                match resize_master(&mut session.resources, cols, rows) {
                    Err(m) => {
                        proof {
                            lemma_remove_push_same(entries, i as int, (id, session));
                        }
                        self.sessions.push((id, session));
                        Err(AppError::Pty(m))
                    },
                    Ok(()) => {
                        session.cols = cols;
                        session.rows = rows;
                        proof {
                            lemma_remove_push_update(entries, i as int, (id, session));
                        }
                        self.sessions.push((id, session));
                        Ok(())
                    },
                }
            },
        }
    }

    /// Removes the session and asks its child process to terminate; a
    /// failure to signal (the process may already have exited) is ignored.
    /// Closing an identifier with no live session succeeds silently: close
    /// is idempotent. The reader worker is not synchronized with — it ends
    /// on its own once its read handle reports end of stream.
    pub fn close(&mut self, session_id: &str) -> (r: Result<(), AppError>)
        requires
            old(self).wf(),
        ensures
            final(self).wf(),
            r is Ok,
            final(self).table() == old(self).table().remove(session_id@),
    {
        proof {
            lemma_table_dom(self.sessions@, session_id@);
        }
        match self.find_index(session_id) {
            None => {
                proof {
                    assert(old(self).table().remove(session_id@) =~= old(self).table());
                }
                Ok(())
            },
            Some(i) => {
                proof {
                    lemma_distinct_remove(self.sessions@, i as int);
                    lemma_table_remove(self.sessions@, i as int);
                }
                let (_id, mut session) = self.sessions.remove(i);
                kill_child(&mut session.resources);
                Ok(())
            },
        }
    }
}

// ---------------------------------------------------------------------------
// Laws of the registry
// ---------------------------------------------------------------------------

/// Law: closing an identifier with no live session leaves every session
/// exactly as it was.
pub proof fn lemma_close_unknown_noop(t: Map<Seq<char>, (u16, u16)>, id: Seq<char>)
    requires
        !t.dom().contains(id),
    ensures
        t.remove(id) == t,
{
    assert(t.remove(id) =~= t);
}

/// Law: after a close, the closed identifier has no live session, so a
/// write or resize on it fails with NotFound.
pub proof fn lemma_closed_not_found(t: Map<Seq<char>, (u16, u16)>, id: Seq<char>)
    ensures
        !t.remove(id).dom().contains(id),
{
}

/// Law: a close touches no other session — every other identifier keeps
/// its liveness and its geometry.
pub proof fn lemma_close_preserves_others(
    t: Map<Seq<char>, (u16, u16)>,
    id: Seq<char>,
    other: Seq<char>,
)
    requires
        other != id,
    ensures
        t.remove(id).dom().contains(other) == t.dom().contains(other),
        t.dom().contains(other) ==> t.remove(id)[other] == t[other],
{
}

/// Law: two successful creations in succession yield distinct identifiers —
/// the second is fresh against a table that still holds the first.
pub proof fn lemma_created_ids_distinct(
    t: Map<Seq<char>, (u16, u16)>,
    id1: Seq<char>,
    g1: (u16, u16),
    id2: Seq<char>,
)
    requires
        !t.dom().contains(id1),
        !t.insert(id1, g1).dom().contains(id2),
    ensures
        id1 != id2,
{
}

/// Law: resizing a live session to a geometry and then resizing it to the
/// same geometry again finds the session live both times and leaves the
/// stored geometry at exactly that value.
pub proof fn lemma_resize_idempotent(
    t: Map<Seq<char>, (u16, u16)>,
    id: Seq<char>,
    cols: u16,
    rows: u16,
)
    requires
        t.dom().contains(id),
    ensures
        t.insert(id, (cols, rows)).dom().contains(id),
        t.insert(id, (cols, rows)).insert(id, (cols, rows)) == t.insert(id, (cols, rows)),
        t.insert(id, (cols, rows))[id] == (cols, rows),
{
    assert(t.insert(id, (cols, rows)).insert(id, (cols, rows)) =~= t.insert(id, (cols, rows)));
}

} // verus!
