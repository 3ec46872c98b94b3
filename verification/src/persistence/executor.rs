//! The executor of system operations: its configuration.
use vstd::prelude::*;
use std::path::PathBuf;
use crate::persistence::codegen::CodeGenerator;
use crate::persistence::paths::copy_path;
use crate::signal::types::SignalId;

verus! {

/// Executes system operations with continuity gating.
pub struct SystemOpExecutor {
    pub data_dir: PathBuf,
    pub src_root: PathBuf,
    pub workspace_root: PathBuf,
    pub codegen: CodeGenerator,
    /// Well-known signal ids for feedback.
    pub sig_integrity: SignalId,
    pub sig_coherence: SignalId,
    pub sig_continuity: SignalId,
}

impl SystemOpExecutor {
    /// An executor over the given directories, with its own code generator
    /// over copies of `src_root` and `data_dir`.
    pub fn new(
        data_dir: PathBuf,
        src_root: PathBuf,
        workspace_root: PathBuf,
        sig_integrity: SignalId,
        sig_coherence: SignalId,
        sig_continuity: SignalId,
    ) -> (r: SystemOpExecutor)
        ensures
            r.data_dir == data_dir,
            r.src_root == src_root,
            r.workspace_root == workspace_root,
            r.sig_integrity == sig_integrity,
            r.sig_coherence == sig_coherence,
            r.sig_continuity == sig_continuity,
            r.codegen.src_root == src_root,
            r.codegen.data_dir == data_dir,
    {
        let codegen = CodeGenerator::new(copy_path(&src_root), copy_path(&data_dir));
        SystemOpExecutor {
            data_dir,
            src_root,
            workspace_root,
            codegen,
            sig_integrity,
            sig_coherence,
            sig_continuity,
        }
    }
}

} // verus!
