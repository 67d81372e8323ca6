//! The file-search backends the search capability chooses between.
//!
//! Each searcher is a description of one platform backend.  Probing a
//! backend's presence and running an actual search talk to the system
//! (session bus, helper binaries, OS search services) and live with the
//! surrounding process; the pure parts stand here: the directory-walking
//! fallback is always available, the choice among probed Linux backends,
//! and which paths the macOS index covers.

use vstd::prelude::*;

verus! {

/// Searcher backed by the GNOME file index, reached over the session bus.
#[derive(Debug)]
pub struct TrackerSearcher;

impl TrackerSearcher {
    pub fn new() -> (r: Self)
        ensures
            r == (TrackerSearcher {  }),
    {
        Self {  }
    }

    /// This backend's name.
    pub fn name(&self) -> (r: &'static str)
        ensures
            r@ == "Tracker"@,
    {
        "Tracker"
    }
}

/// Searcher backed by the KDE file index.
#[derive(Debug)]
pub struct BalooSearcher;

impl BalooSearcher {
    pub fn new() -> (r: Self)
        ensures
            r == (BalooSearcher {  }),
    {
        Self {  }
    }

    /// This backend's name.
    pub fn name(&self) -> (r: &'static str)
        ensures
            r@ == "Baloo"@,
    {
        "Baloo"
    }
}

/// Searcher backed by a `locate` database.
#[derive(Debug)]
pub struct LocateSearcher;

impl LocateSearcher {
    pub fn new() -> (r: Self)
        ensures
            r == (LocateSearcher {  }),
    {
        Self {  }
    }

    /// This backend's name.
    pub fn name(&self) -> (r: &'static str)
        ensures
            r@ == "Locate"@,
    {
        "Locate"
    }
}

/// Cross-platform searcher that walks the directory tree directly.
#[derive(Debug)]
pub struct WalkdirSearcher;

impl WalkdirSearcher {
    pub fn new() -> (r: Self)
        ensures
            r == (WalkdirSearcher {  }),
    {
        Self {  }
    }

    /// The walking fallback needs no index or service: it is always
    /// available.
    pub fn is_available(&self) -> (r: bool)
        ensures
            r == true,
    {
        true
    }

    /// This backend's name.
    pub fn name(&self) -> (r: &'static str)
        ensures
            r@ == "Walkdir"@,
    {
        "Walkdir"
    }
}

/// Searcher backed by the macOS system index, with the walking fallback
/// for directories the index does not cover.
#[derive(Debug)]
pub struct SpotlightSearcher {
    pub walkdir_fallback: WalkdirSearcher,
}

impl SpotlightSearcher {
    pub fn new() -> (r: Self)
        ensures
            r == (SpotlightSearcher { walkdir_fallback: WalkdirSearcher {  } }),
    {
        Self { walkdir_fallback: WalkdirSearcher::new() }
    }

    /// Whether the system index is expected to cover a path: temporary
    /// directories are not indexed, so a search there must fall back to
    /// walking.
    pub fn is_path_indexed(path: &str) -> (r: bool)
        ensures
            r == !(crate::paths::starts_with(path@, "/private/var/folders/"@)
                || crate::paths::starts_with(path@, "/var/folders/"@) || crate::paths::starts_with(
                path@,
                "/tmp/"@,
            ) || crate::paths::starts_with(path@, "/private/tmp/"@)),
    {
        !(crate::paths::str_starts_with(path, "/private/var/folders/")
            || crate::paths::str_starts_with(path, "/var/folders/") || crate::paths::str_starts_with(
            path,
            "/tmp/",
        ) || crate::paths::str_starts_with(path, "/private/tmp/"))
    }
}

/// Searcher backed by the Windows search service.
#[derive(Debug)]
pub struct WindowsSearchApiSearcher;

impl WindowsSearchApiSearcher {
    pub fn new() -> (r: Self)
        ensures
            r == (WindowsSearchApiSearcher {  }),
    {
        Self {  }
    }

    /// This backend's name.
    pub fn name(&self) -> (r: &'static str)
        ensures
            r@ == "WindowsSearchApi"@,
    {
        "WindowsSearchApi"
    }
}

/// The Linux backend a search should use, by preference.
#[derive(Clone, Copy, PartialEq, Eq, Structural, Debug)]
pub enum LinuxSearcherKind {
    Tracker,
    Baloo,
    Locate,
}

/// Chooses the Linux backend from the probed availability of each: the
/// file indexes are preferred over a `locate` database, and nothing is
/// chosen when nothing is available.
pub fn select_linux_searcher(
    tracker_available: bool,
    baloo_available: bool,
    locate_available: bool,
) -> (r: Option<LinuxSearcherKind>)
    ensures
        r == if tracker_available {
            Some(LinuxSearcherKind::Tracker)
        } else if baloo_available {
            Some(LinuxSearcherKind::Baloo)
        } else if locate_available {
            Some(LinuxSearcherKind::Locate)
        } else {
            None::<LinuxSearcherKind>
        },
{
    if tracker_available {
        Some(LinuxSearcherKind::Tracker)
    } else if baloo_available {
        Some(LinuxSearcherKind::Baloo)
    } else if locate_available {
        Some(LinuxSearcherKind::Locate)
    } else {
        None
    }
}

} // verus!
