//! Planning of the output destination.
//!
//! Where the rewritten bytes go is decided once, before any entry is
//! processed, from the output option, the source archive's path and the
//! observed state of the one path the option names.  The decision is a
//! plan; carrying it out (creating files and directories, writing a
//! temporary file and renaming it over the original) is plain I/O and
//! lives outside the engine.  An in-place overwrite plans a temporary
//! file in the original's own directory, so that the final rename is one
//! atomic filesystem operation and the original is never touched before
//! the new content is complete.

use vstd::prelude::*;

use crate::cli::OutputOption;
use crate::errors::ZipedError;
use crate::pattern::chars_of;
use crate::text::{after_last, before_last, lemma_after_last_absent, lemma_split_at_last, occurs, scan_past_last};

verus! {

/// The base file name of the path `s`: what follows its last `/`.
pub open spec fn base_name_of(s: Seq<char>) -> Seq<char> {
    after_last(s, '/')
}

/// The directory that holds the path `s`: what precedes its last `/`, or
/// `.` when `s` has no directory part.
pub open spec fn parent_dir_of(s: Seq<char>) -> Seq<char> {
    if occurs(s, '/') {
        before_last(s, '/')
    } else {
        seq!['.']
    }
}

/// The path `name` placed inside the directory `dir`.
pub open spec fn joined(dir: Seq<char>, name: Seq<char>) -> Seq<char> {
    dir + seq!['/'] + name
}

/// The base file name of the path `s`.
pub fn base_name(s: &str) -> (r: String)
    ensures
        r@ == base_name_of(s@),
{
    let chars = chars_of(s);
    let past = scan_past_last(&chars, '/');
    let n = s.unicode_len();
    let tail = s.substring_char(past, n);
    proof {
        if past == 0 {
            lemma_after_last_absent(s@, '/');
            assert(s@.subrange(0, n as int) =~= s@);
        } else {
            lemma_split_at_last(s@, '/', past - 1);
        }
    }
    tail.to_owned()
}

/// The directory that holds the path `s`, `.` when `s` names no
/// directory.
pub fn parent_dir(s: &str) -> (r: String)
    ensures
        r@ == parent_dir_of(s@),
{
    let chars = chars_of(s);
    let past = scan_past_last(&chars, '/');
    if past == 0 {
        let dot = ".".to_owned();
        proof {
            reveal_strlit(".");
            assert(dot@ =~= seq!['.']);
        }
        dot
    } else {
        let head = s.substring_char(0, past - 1);
        proof {
            lemma_split_at_last(s@, '/', past - 1);
        }
        head.to_owned()
    }
}

/// `name` placed inside the directory `dir`.
pub fn join_path(dir: &str, name: &str) -> (r: String)
    ensures
        r@ == joined(dir@, name@),
{
    let mut out = dir.to_owned();
    out.append("/");
    out.append(name);
    proof {
        reveal_strlit("/");
        assert("/"@ =~= seq!['/']);
    }
    out
}

/// The observed state of one filesystem path, as the caller found it.
pub struct PathProbe {
    /// Whether the path exists at all.
    pub exists: bool,
    /// Whether the path is a directory (meaningful only when it exists).
    pub is_dir: bool,
}

/// A decided destination: what to materialize before the rewritten bytes
/// can be committed.
#[derive(Debug)]
pub enum SinkPlan {
    /// Create a brand-new file at `path` and write the output there.
    CreateFile { path: String },
    /// Create the directory `dir` (with parents) if it is absent, then
    /// write the output to the brand-new `path` inside it.
    CreateDirAndFile { dir: String, path: String },
    /// Write the output to a fresh temporary file inside `dir` — the
    /// directory of the original, so both sit on one filesystem — and
    /// only then, in one atomic rename, persist it over `target`.
    TempThenRename { dir: String, target: String },
}

/// The path whose filesystem state `plan_output` needs probed, if any:
/// the new file's path, or the target directory.
pub fn probe_target(option: &OutputOption) -> (r: Option<&String>)
    ensures
        option matches OutputOption::Path(p) ==> (r matches Some(q) && q@ == p@),
        option matches OutputOption::Dir(d) ==> (r matches Some(q) && q@ == d@),
        option is Unspecified || option is Overwrite ==> r is None,
{
    match option {
        OutputOption::Path(p) => Some(p),
        OutputOption::Dir(d) => Some(d),
        _ => None,
    }
}

/// Decides the destination for one rewrite of the archive at
/// `input_path`, before any entry is processed.  `probe` is the state of
/// the path `probe_target` named.  A brand-new output path that already
/// exists is refused — never silently overwritten — and a target
/// directory path that exists as a non-directory is refused; in both
/// cases nothing has been created or modified.  An in-place overwrite
/// defers every visible change to the final rename.
pub fn plan_output(option: &OutputOption, input_path: &str, probe: &PathProbe) -> (r: Result<
    SinkPlan,
    ZipedError,
>)
    ensures
        option is Unspecified ==> (r matches Err(e) && e is OutputNotSpecified),
        option matches OutputOption::Path(p) ==> (if probe.exists {
            r matches Err(e) && e matches ZipedError::OutputExists(q) && q@ == p@
        } else {
            r matches Ok(plan) && plan matches SinkPlan::CreateFile { path } && path@ == p@
        }),
        option matches OutputOption::Dir(d) ==> (if probe.exists && !probe.is_dir {
            r matches Err(e) && e matches ZipedError::NotADirectory(q) && q@ == d@
        } else {
            r matches Ok(plan) && plan matches SinkPlan::CreateDirAndFile { dir, path } && dir@
                == d@ && path@ == joined(d@, base_name_of(input_path@))
        }),
        option is Overwrite ==> (r matches Ok(plan) && plan matches SinkPlan::TempThenRename {
            dir,
            target,
        } && dir@ == parent_dir_of(input_path@) && target@ == input_path@),
{
    match option {
        OutputOption::Unspecified => Err(ZipedError::OutputNotSpecified),
        OutputOption::Path(p) => {
            if probe.exists {
                Err(ZipedError::OutputExists(p.clone()))
            } else {
                Ok(SinkPlan::CreateFile { path: p.clone() })
            }
        },
        OutputOption::Dir(d) => {
            if probe.exists && !probe.is_dir {
                Err(ZipedError::NotADirectory(d.clone()))
            } else {
                let file_name = base_name(input_path);
                let path = join_path(d.as_str(), file_name.as_str());
                Ok(SinkPlan::CreateDirAndFile { dir: d.clone(), path })
            }
        },
        OutputOption::Overwrite => {
            let dir = parent_dir(input_path);
            Ok(SinkPlan::TempThenRename { dir, target: input_path.to_owned() })
        },
    }
}

} // verus!
