//! What the process Properties dialog shows, gathered once when it opens.
use vstd::prelude::*;
use crate::processes::grouping::ProcInfo;

verus! {

/// The heavy lookups behind the Properties dialog: working directory, open
/// descriptor count and the configuration paths found for the process. Each
/// walks `/proc`, so the caller reads them once and keeps this until the
/// dialog reloads or another process is opened.
pub struct ProcessPropertiesView {
    pub pid: u32,
    pub cwd: Option<String>,
    pub fd_count: Option<usize>,
    pub configs: Vec<String>,
}

/// The view for `p`, from the lookups made for its PID.
pub fn build_properties_view(
    p: &ProcInfo,
    cwd: Option<String>,
    fd_count: Option<usize>,
    configs: Vec<String>,
) -> (r: ProcessPropertiesView)
    ensures
        r.pid == p.pid,
        r.cwd == cwd,
        r.fd_count == fd_count,
        r.configs == configs,
{
    ProcessPropertiesView { pid: p.pid, cwd, fd_count, configs }
}

} // verus!
