//! How a store is to be opened: durable at a path, or in memory only.
use vstd::prelude::*;

verus! {

/// The flush interval of a durable store, in milliseconds.
pub const FLUSH_INTERVAL_MS: u64 = 500;

/// Where a store lives and what to do when its file cannot be used.
pub struct Config {
    path: Option<String>,
    in_memory: bool,
    fall_back_in_memory: bool,
}

impl Config {
    /// The path of the snapshot file, if any.
    pub closed spec fn spec_path(&self) -> Option<Seq<char>> {
        match self.path {
            Some(p) => Some(p@),
            None => None,
        }
    }

    /// Whether the store is kept in memory only.
    pub closed spec fn spec_in_memory(&self) -> bool {
        self.in_memory
    }

    /// Whether a failure to use the file degrades to an in-memory store.
    pub closed spec fn spec_fall_back(&self) -> bool {
        self.fall_back_in_memory
    }

    /// An in-memory configuration has no path and nothing to fall back from.
    pub open spec fn wf(&self) -> bool {
        self.spec_in_memory() ==> self.spec_path() is None && !self.spec_fall_back()
    }

    /// A configuration; when `in_memory` holds, `path` is ignored and
    /// fallback is off, else a missing `path` is taken from `default_path`.
    pub fn new(
        path: Option<String>,
        in_memory: bool,
        fall_back_in_memory: bool,
        default_path: Option<String>,
    ) -> (r: Config)
        ensures
            r.wf(),
            r.spec_in_memory() == in_memory,
            in_memory ==> r.spec_path() is None && !r.spec_fall_back(),
            !in_memory ==> r.spec_fall_back() == fall_back_in_memory,
            !in_memory ==> r.spec_path() == match path {
                Some(p) => Some(p@),
                None => match default_path {
                    Some(d) => Some(d@),
                    None => None::<Seq<char>>,
                },
            },
    {
        if in_memory {
            Config { in_memory, path: None, fall_back_in_memory: false }
        } else {
            let path = match path {
                Some(p) => Some(p),
                None => default_path,
            };
            Config { in_memory, path, fall_back_in_memory }
        }
    }

    /// The usual configuration: durable at `default_path`, falling back to
    /// memory.
    pub fn with_default_path(default_path: Option<String>) -> (r: Config)
        ensures
            r.wf(),
            !r.spec_in_memory(),
            r.spec_fall_back(),
            r.spec_path() == match default_path {
                Some(d) => Some(d@),
                None => None::<Seq<char>>,
            },
    {
        Config { path: default_path, in_memory: false, fall_back_in_memory: true }
    }

    /// The path of the snapshot file.
    pub fn path(&self) -> (r: Option<String>)
        ensures
            match r {
                Some(p) => self.spec_path() == Some(p@),
                None => self.spec_path() is None,
            },
    {
        match &self.path {
            Some(p) => Some(p.clone()),
            None => None,
        }
    }

    /// Whether the store is kept in memory only.
    pub fn in_memory(&self) -> (r: bool)
        ensures
            r == self.spec_in_memory(),
    {
        self.in_memory
    }

    /// Whether a failure to use the file degrades to an in-memory store.
    pub fn fall_back_in_memory(&self) -> (r: bool)
        ensures
            r == self.spec_fall_back(),
    {
        self.fall_back_in_memory
    }
}

} // verus!
