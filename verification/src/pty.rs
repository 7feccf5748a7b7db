//! The trusted boundary to the operating system's pseudo-terminals.
//!
//! Everything here either declares a type of the `portable_pty` crate or
//! wraps exactly the calls the session manager makes into it. The handles a
//! session owns are trait objects of `portable_pty`, which cannot be
//! declared to the verifier one by one; they are therefore held together in
//! the opaque [`PtyResources`] and [`PtyOutput`] structs, and every
//! operation on them goes through a wrapper whose contract states only what
//! the crate's source shows.

use vstd::prelude::*;
use std::io::{Read, Write};
use portable_pty::{native_pty_system, Child, CommandBuilder, MasterPty, PtyPair, PtySize};
use crate::reader::ReadEvent;

verus! {

/// The size of the reader worker's read buffer.
pub const READ_CHUNK_LIMIT: usize = 16384;

#[verifier::external_type_specification]
#[verifier::external_body]
pub struct ExPtyPair(PtyPair);

#[verifier::external_type_specification]
#[verifier::external_body]
pub struct ExCommandBuilder(CommandBuilder);

/// What the prepared command's environment answers for a variable name, as
/// CommandBuilder::get_env reports it for exactly that spelling: an override
/// set through [`builder_env`], or an entry of the base environment the
/// builder captured at construction.
pub uninterp spec fn builder_env_lookup(cmd: CommandBuilder, key: Seq<char>) -> Option<Seq<char>>;

/// The working directory set on the prepared command, if any; none means the
/// spawned process inherits this process's own.
pub uninterp spec fn builder_workdir(cmd: CommandBuilder) -> Option<Seq<char>>;

/// A variable name written in plain capitals. The builder keeps one entry
/// per variable, and on platforms with case-insensitive variables it folds
/// spellings of one name together; two distinct all-capitals names never
/// fold together, so they address distinct entries on every platform.
pub open spec fn upper_ascii_key(s: Seq<char>) -> bool {
    forall|i: int| 0 <= i < s.len() ==> 'A' <= #[trigger] s[i] <= 'Z'
}

/// Relies on CommandBuilder::new_default_prog: a builder for the platform's
/// default interactive shell, with the base environment captured and no
/// working directory set.
pub assume_specification[ CommandBuilder::new_default_prog ]() -> (r: CommandBuilder)
    ensures
        builder_workdir(r) is None,
;

/// The operating-system side of one live session: the master end of its
/// pseudo-terminal, the write half taken from it, and the child process
/// attached to the slave end. Opaque to the verifier; reached only through
/// the wrappers below.
#[verifier::external_body]
pub struct PtyResources {
    master: Box<dyn MasterPty + Send>,
    writer: Box<dyn Write + Send>,
    child: Box<dyn Child + Send + Sync>,
}

/// The readable handle cloned from a session's master end, owned by that
/// session's reader worker alone. Opaque to the verifier.
#[verifier::external_body]
pub struct PtyOutput {
    reader: Box<dyn Read + Send>,
}

/// Relies on PtySystem::openpty: opens one pseudo-terminal pair at the given
/// geometry, or reports the failure.
#[verifier::external_body]
pub(crate) fn open_native_pty(cols: u16, rows: u16) -> (r: Result<PtyPair, String>)
    requires
        1 <= cols <= 500,
        1 <= rows <= 500,
{
    native_pty_system().openpty(PtySize { rows, cols, pixel_width: 0, pixel_height: 0 }).map_err(
        |e| e.to_string(),
    )
}

/// Relies on CommandBuilder::env: overrides one environment variable of the
/// command being prepared. Afterwards the variable answers with exactly the
/// given value; entries under other all-capitals names, and the working
/// directory, are untouched.
#[verifier::external_body]
pub(crate) fn builder_env(cmd: &mut CommandBuilder, key: &str, value: &str)
    ensures
        builder_env_lookup(*final(cmd), key@) == Some(value@),
        builder_workdir(*final(cmd)) == builder_workdir(*old(cmd)),
        forall|k: Seq<char>|
            upper_ascii_key(k) && upper_ascii_key(key@) && k != key@
                ==> #[trigger] builder_env_lookup(*final(cmd), k) == builder_env_lookup(
                *old(cmd),
                k,
            ),
{
    cmd.env(key, value);
}

/// Relies on CommandBuilder::get_env: whether the command being prepared has
/// a value for the variable, from an override or from the base environment
/// the builder captured.
#[verifier::external_body]
pub(crate) fn builder_env_is_set(cmd: &CommandBuilder, key: &str) -> (r: bool)
    ensures
        r == (builder_env_lookup(*cmd, key@) is Some),
{
    cmd.get_env(key).is_some()
}

/// Relies on CommandBuilder::get_env: the value the command being prepared
/// has for the variable, if any.
#[verifier::external_body]
pub(crate) fn builder_env_value(cmd: &CommandBuilder, key: &str) -> (r: Option<String>)
    ensures
        (r is Some) == (builder_env_lookup(*cmd, key@) is Some),
        r matches Some(v) ==> builder_env_lookup(*cmd, key@) == Some(v@),
{
    cmd.get_env(key).map(|v| v.to_string_lossy().to_string())
}

/// Relies on CommandBuilder::cwd: sets the working directory of the command
/// being prepared and touches nothing else.
#[verifier::external_body]
pub(crate) fn builder_cwd(cmd: &mut CommandBuilder, dir: &str)
    ensures
        builder_workdir(*final(cmd)) == Some(dir@),
        forall|k: Seq<char>| #[trigger]
            builder_env_lookup(*final(cmd), k) == builder_env_lookup(*old(cmd), k),
{
    cmd.cwd(dir);
}

/// Relies on SlavePty::spawn_command, MasterPty::try_clone_reader and
/// MasterPty::take_writer: attaches the prepared command to the slave end,
/// then takes a cloned read handle and the owned write handle from the
/// master end. The first failure is reported and drops the pair, so nothing
/// is leaked. Only a command prepared for a session may be spawned: terminal
/// type and color support advertised, and some locale present.
#[verifier::external_body]
pub(crate) fn spawn_shell(pair: PtyPair, cmd: CommandBuilder) -> (r: Result<
    (PtyResources, PtyOutput),
    String,
>)
    requires
        builder_env_lookup(cmd, "TERM"@) == Some("xterm-256color"@),
        builder_env_lookup(cmd, "COLORTERM"@) == Some("truecolor"@),
        builder_env_lookup(cmd, "LANG"@) is Some,
{
    let child = pair.slave.spawn_command(cmd).map_err(|e| e.to_string())?;
    let reader = pair.master.try_clone_reader().map_err(|e| e.to_string())?;
    let writer = pair.master.take_writer().map_err(|e| e.to_string())?;
    Ok((PtyResources { master: pair.master, writer, child }, PtyOutput { reader }))
}

/// Relies on MasterPty::resize: asks the kernel to change the
/// pseudo-terminal's geometry, or reports the failure.
#[verifier::external_body]
pub(crate) fn resize_master(res: &mut PtyResources, cols: u16, rows: u16) -> (r: Result<
    (),
    String,
>) {
    res.master.resize(PtySize { rows, cols, pixel_width: 0, pixel_height: 0 }).map_err(
        |e| e.to_string(),
    )
}

/// Relies on std::io::Write::write_all: writes all the bytes to the
/// session's input, or reports the failure.
#[verifier::external_body]
pub(crate) fn write_master(res: &mut PtyResources, data: &[u8]) -> (r: Result<(), String>) {
    res.writer.write_all(data).map_err(|e| e.to_string())
}

/// Relies on std::io::Write::flush: flushes the session's input, or reports
/// the failure.
#[verifier::external_body]
pub(crate) fn flush_master(res: &mut PtyResources) -> (r: Result<(), String>) {
    res.writer.flush().map_err(|e| e.to_string())
}

/// Relies on ChildKiller::kill: asks the child process to terminate. A
/// failure (the process may already have exited) is ignored.
#[verifier::external_body]
pub(crate) fn kill_child(res: &mut PtyResources) {
    let _ = res.child.kill();
}

/// Relies on std::io::Read::read: performs one blocking read from the
/// session's output into a buffer of `READ_CHUNK_LIMIT` bytes. A read of no
/// bytes means end of stream; an error means the handle is no longer usable.
/// Public because the reader worker's loop runs on a host thread.
#[verifier::external_body]
pub fn read_output_chunk(out: &mut PtyOutput) -> (r: ReadEvent)
    ensures
        r matches ReadEvent::Data(d) ==> d@.len() <= READ_CHUNK_LIMIT as int,
{
    let mut buf = [0u8; 16384];
    match out.reader.read(&mut buf) {
        Ok(n) => ReadEvent::Data(buf[..n].to_vec()),
        Err(_) => ReadEvent::Failed,
    }
}

} // verus!
