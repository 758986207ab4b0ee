//! The options of a run and the conflict strategy, with the parsing of the
//! strategy names that the desktop front end sends.
use vstd::prelude::*;

verus! {

/// How a name clash in the destination directory is resolved.
#[derive(Clone, Copy, Debug, PartialEq, Eq, Structural)]
pub enum ConflictStrategy {
    /// Replace the file already there.
    Overwrite,
    /// Leave the source file where it is.
    Skip,
    /// Use the first free name `stem_N.ext`, N from 1 to 9999 (the default).
    Rename,
}

/// What is done with one source file once its destination is known.
#[derive(Clone, Copy, Debug, PartialEq, Eq, Structural)]
pub enum FileOp {
    /// Dry run of a move: only reported.
    PreviewMove,
    /// Dry run of a copy: only reported.
    PreviewCopy,
    /// The file is moved (renamed) to its destination.
    Move,
    /// The file is copied to its destination.
    Copy,
}

/// The options of a run.
#[derive(Clone, Copy, Debug, PartialEq, Eq, Structural)]
pub struct RunConfig {
    /// Move the files rather than copy them.
    pub move_files: bool,
    /// Report what would be done without touching any file.
    pub dry_run: bool,
    /// How name clashes in the destination are resolved.
    pub conflict: ConflictStrategy,
    /// Remove the directories that the run leaves empty.
    pub cleanup: bool,
}

/// The operation on each file under the options `c`.
pub open spec fn file_op_of(c: RunConfig) -> FileOp {
    if c.dry_run {
        if c.move_files {
            FileOp::PreviewMove
        } else {
            FileOp::PreviewCopy
        }
    } else if c.move_files {
        FileOp::Move
    } else {
        FileOp::Copy
    }
}

impl RunConfig {
    /// The operation applied to each file: a dry run only reports, otherwise
    /// the file is moved or copied.
    pub fn file_op(&self) -> (res: FileOp)
        ensures
            res == file_op_of(*self),
    {
        if self.dry_run {
            if self.move_files {
                FileOp::PreviewMove
            } else {
                FileOp::PreviewCopy
            }
        } else if self.move_files {
            FileOp::Move
        } else {
            FileOp::Copy
        }
    }
}

/// The strategy named `name` in the front end's vocabulary.
pub open spec fn strategy_named(name: Seq<char>) -> Option<ConflictStrategy> {
    if name == "overwrite"@ {
        Some(ConflictStrategy::Overwrite)
    } else if name == "skip"@ {
        Some(ConflictStrategy::Skip)
    } else if name == "rename"@ {
        Some(ConflictStrategy::Rename)
    } else {
        None
    }
}

/// Each strategy has exactly one name, and no other text names one.
pub proof fn law_strategy_names(name: Seq<char>)
    ensures
        strategy_named(name) == Some(ConflictStrategy::Overwrite) <==> name == "overwrite"@,
        strategy_named(name) == Some(ConflictStrategy::Skip) <==> name == "skip"@,
        strategy_named(name) == Some(ConflictStrategy::Rename) <==> name == "rename"@,
        strategy_named(name) is None <==> (name != "overwrite"@ && name != "skip"@ && name
            != "rename"@),
{
    reveal_strlit("overwrite");
    reveal_strlit("skip");
    reveal_strlit("rename");
    assert("overwrite"@.len() != "skip"@.len());
    assert("overwrite"@.len() != "rename"@.len());
    assert("skip"@.len() != "rename"@.len());
}

impl ConflictStrategy {
    /// Parses `overwrite`, `skip` or `rename` (exactly, in lower case).
    pub fn from_name(name: &str) -> (res: Option<ConflictStrategy>)
        ensures
            res == strategy_named(name@),
    {
        let s = String::from_str(name);
        let o = String::from_str("overwrite");
        let k = String::from_str("skip");
        let r = String::from_str("rename");
        if s == o {
            Some(ConflictStrategy::Overwrite)
        } else if s == k {
            Some(ConflictStrategy::Skip)
        } else if s == r {
            Some(ConflictStrategy::Rename)
        } else {
            None
        }
    }
}

/// The parameters of a run as the desktop front end sends them.
pub struct RunParams {
    pub source: String,
    pub dest: String,
    pub move_files: bool,
    pub dry_run: bool,
    /// `overwrite`, `skip` or `rename`.
    pub conflict: String,
    pub cleanup: bool,
}

impl RunParams {
    /// The options of the run; the error message the front end shows when
    /// the strategy is not one of the three names.
    pub fn config(&self) -> (res: Result<RunConfig, String>)
        ensures
            match strategy_named(self.conflict@) {
                Some(c) => res == Ok::<RunConfig, String>(
                    RunConfig {
                        move_files: self.move_files,
                        dry_run: self.dry_run,
                        conflict: c,
                        cleanup: self.cleanup,
                    },
                ),
                None => res is Err && res->Err_0@ == "无效的冲突策略"@,
            },
    {
        match ConflictStrategy::from_name(self.conflict.as_str()) {
            Some(c) => Ok(
                RunConfig {
                    move_files: self.move_files,
                    dry_run: self.dry_run,
                    conflict: c,
                    cleanup: self.cleanup,
                },
            ),
            None => Err(String::from_str("无效的冲突策略")),
        }
    }
}

} // verus!
