//! Dev-context primitives: the registered channel protocols (no interactive
//! shell is ever registered) and the framing of a non-interactive command's
//! output, whose log keeps only the invocation and exit.
use vstd::prelude::*;
use crate::text::{chars_of, eq_str};

verus! {

/// Why a file access was refused.
#[derive(Debug, Clone, Copy, PartialEq, Eq, Structural)]
pub enum RefusedReason {
    /// The path resolves outside the repo root (or does not exist).
    OutOfScope,
}

pub const ALPN_ATTACH: &'static str = "wagner/attach/1";
pub const ALPN_CONTROL: &'static str = "wagner/control/1";
pub const ALPN_DEVCTX: &'static str = "wagner/devctx/1";

/// The protocols the host registers — deliberately no interactive shell.
pub fn registered_alpns() -> (r: Vec<&'static str>)
    ensures
        r@.len() == 3,
        r@[0]@ == ALPN_ATTACH@,
        r@[1]@ == ALPN_CONTROL@,
        r@[2]@ == ALPN_DEVCTX@,
{
    let mut v: Vec<&'static str> = Vec::new();
    v.push(ALPN_ATTACH);
    v.push(ALPN_CONTROL);
    v.push(ALPN_DEVCTX);
    v
}

/// Why opening a channel protocol was refused.
#[derive(Debug, Clone, Copy, PartialEq, Eq, Structural)]
pub enum AlpnError {
    /// The protocol is not one the host serves.
    Unregistered,
}

/// Accept a channel-open for `alpn` when it is registered; refuse otherwise.
pub fn accept_alpn(alpn: &str) -> (r: Result<(), AlpnError>)
    ensures
        r is Ok <==> (alpn@ == ALPN_ATTACH@ || alpn@ == ALPN_CONTROL@ || alpn@ == ALPN_DEVCTX@),
        r matches Err(e) ==> e == AlpnError::Unregistered,
{
    let a = chars_of(alpn);
    let regs = registered_alpns();
    let mut i: usize = 0;
    while i < regs.len()
        invariant
            regs@.len() == 3,
            regs@[0]@ == ALPN_ATTACH@,
            regs@[1]@ == ALPN_CONTROL@,
            regs@[2]@ == ALPN_DEVCTX@,
            a@ == alpn@,
            i <= 3,
            forall|j: int| 0 <= j < i ==> (#[trigger] regs@[j])@ != alpn@,
        decreases regs.len() - i,
    {
        if eq_str(&a, regs[i]) {
            return Ok(());
        }
        i = i + 1;
    }
    assert(regs@[0]@ != alpn@ && regs@[1]@ != alpn@ && regs@[2]@ != alpn@);
    Err(AlpnError::Unregistered)
}

#[derive(Debug, Clone, Copy, PartialEq, Eq, Structural)]
pub enum OutputStream {
    Stdout,
    Stderr,
}

/// One framed chunk of command output streamed to the operator's device.
/// Transient transport, never persisted to the log.
#[derive(Debug, Clone, PartialEq, Eq)]
pub struct OutputFrame {
    pub stream: OutputStream,
    pub seq: usize,
    pub chunk: Vec<u8>,
}

/// The log record for a dev-context command: the invocation and its exit only.
#[derive(Debug, Clone, PartialEq, Eq)]
pub struct CommandLog {
    pub argv: Vec<String>,
    pub cwd: String,
    pub exit_code: i32,
}

/// The result of running a non-interactive command.
#[derive(Debug, Clone, PartialEq, Eq)]
pub struct CommandResult {
    pub frames: Vec<OutputFrame>,
    pub log: CommandLog,
}

/// Frame a finished command's output: a stdout frame then a stderr frame,
/// each only when non-empty and numbered in order; the log keeps argv, cwd and
/// the exit code (`-1` when the process reported none).
pub fn frame_command_output(
    argv: Vec<String>,
    cwd: String,
    stdout: Vec<u8>,
    stderr: Vec<u8>,
    exit_code: Option<i32>,
) -> (r: CommandResult)
    ensures
        r.log.argv@ == argv@,
        r.log.cwd@ == cwd@,
        r.log.exit_code == (match exit_code {
            Some(c) => c,
            None => -1i32,
        }),
        r.frames@.len() == (if stdout@.len() > 0 { 1int } else { 0int }) + (if stderr@.len() > 0 {
            1int
        } else {
            0int
        }),
        stdout@.len() > 0 ==> r.frames@[0].stream == OutputStream::Stdout && r.frames@[0].seq == 0
            && r.frames@[0].chunk@ == stdout@,
        stderr@.len() > 0 ==> ({
            let k = r.frames@.len() - 1;
            r.frames@[k].stream == OutputStream::Stderr && r.frames@[k].seq == k
                && r.frames@[k].chunk@ == stderr@
        }),
{
    let mut frames: Vec<OutputFrame> = Vec::new();
    if stdout.len() > 0 {
        frames.push(OutputFrame { stream: OutputStream::Stdout, seq: 0, chunk: stdout });
    }
    if stderr.len() > 0 {
        let seq = frames.len();
        frames.push(OutputFrame { stream: OutputStream::Stderr, seq, chunk: stderr });
    }
    let code = match exit_code {
        Some(c) => c,
        None => -1,
    };
    CommandResult { frames, log: CommandLog { argv, cwd, exit_code: code } }
}

/// `root` is a component-wise prefix of `path`.
pub open spec fn components_prefix(root: Seq<Seq<char>>, path: Seq<Seq<char>>) -> bool {
    root.len() <= path.len() && forall|i: int| 0 <= i < root.len() ==> root[i] == path[i]
}

/// Whether a canonical path lies within a canonical repository root, compared
/// component by component (so `/repo-other` is not inside `/repo`). The
/// caller canonicalizes both paths first; a path that cannot be canonicalized is
/// refused before this check.
pub fn within_root(root: &Vec<String>, path: &Vec<String>) -> (r: bool)
    ensures
        r == components_prefix(root@.map_values(|s: String| s@), path@.map_values(|s: String| s@)),
{
    let ghost rv = root@.map_values(|s: String| s@);
    let ghost pv = path@.map_values(|s: String| s@);
    if root.len() > path.len() {
        return false;
    }
    let mut i: usize = 0;
    while i < root.len()
        invariant
            root@.len() <= path@.len(),
            0 <= i <= root@.len(),
            rv == root@.map_values(|s: String| s@),
            pv == path@.map_values(|s: String| s@),
            forall|j: int| 0 <= j < i ==> rv[j] == pv[j],
        decreases root.len() - i,
    {
        if !(root[i] == path[i]) {
            assert(rv[i as int] != pv[i as int]);
            return false;
        }
        i = i + 1;
    }
    true
}

/// The result of a repo-scope check.
#[derive(Debug, Clone, PartialEq, Eq)]
pub enum FileAccess {
    /// Allowed: carries the canonical in-repo path, by components.
    Allowed(Vec<String>),
    Refused(RefusedReason),
}

/// The scope decision for a requested path, default-deny: given the canonical
/// root and the canonical request (each `None` where canonicalization failed,
/// as for a path that does not exist), the request is allowed exactly when both
/// resolved and the request lies within the root.
pub fn check_repo_scope(canon_root: Option<Vec<String>>, canon_req: Option<Vec<String>>) -> (r: FileAccess)
    ensures
        match (canon_root, canon_req) {
            (Some(root), Some(req)) => if components_prefix(
                root@.map_values(|s: String| s@),
                req@.map_values(|s: String| s@),
            ) {
                r == FileAccess::Allowed(req)
            } else {
                r == FileAccess::Refused(RefusedReason::OutOfScope)
            },
            _ => r == FileAccess::Refused(RefusedReason::OutOfScope),
        },
{
    let root = match canon_root {
        Some(r) => r,
        None => {
            return FileAccess::Refused(RefusedReason::OutOfScope);
        },
    };
    let req = match canon_req {
        Some(r) => r,
        None => {
            return FileAccess::Refused(RefusedReason::OutOfScope);
        },
    };
    if within_root(&root, &req) {
        FileAccess::Allowed(req)
    } else {
        FileAccess::Refused(RefusedReason::OutOfScope)
    }
}

} // verus!
