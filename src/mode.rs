use vstd::prelude::*;

verus! {

/// Which kinds of empty entries a run removes.
#[derive(Clone, Copy, Debug, PartialEq, Eq, Structural)]
pub enum PruneMode {
    /// Remove empty directories only; files are never touched.
    Dirs,
    /// Remove zero-length regular files only; directories are never removed.
    Files,
    /// Remove zero-length files and the directories left empty.
    Both,
}

impl PruneMode {
    /// Does this mode remove directories?
    pub open spec fn spec_removes_dirs(self) -> bool {
        self != PruneMode::Files
    }

    /// Does this mode remove zero-length files?
    pub open spec fn spec_removes_files(self) -> bool {
        self != PruneMode::Dirs
    }

    /// The mode that the two command-line flags select: one flag alone picks
    /// its kind, and neither or both pick `Both`.
    pub open spec fn spec_from_flags(dirs: bool, files: bool) -> PruneMode {
        if dirs == files {
            PruneMode::Both
        } else if dirs {
            PruneMode::Dirs
        } else {
            PruneMode::Files
        }
    }

    pub fn from_flags(dirs: bool, files: bool) -> (m: PruneMode)
        ensures
            m == Self::spec_from_flags(dirs, files),
    {
        if dirs == files {
            PruneMode::Both
        } else if dirs {
            PruneMode::Dirs
        } else {
            PruneMode::Files
        }
    }

    pub fn removes_dirs(&self) -> (r: bool)
        ensures
            r == self.spec_removes_dirs(),
    {
        !matches!(self, PruneMode::Files)
    }

    pub fn removes_files(&self) -> (r: bool)
        ensures
            r == self.spec_removes_files(),
    {
        !matches!(self, PruneMode::Dirs)
    }
}

} // verus!
