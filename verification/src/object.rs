//! The objects whose bytes a decision is about.
use vstd::prelude::*;

verus! {

pub type ObjectId = u64;

/// Where the bytes of an object are.
#[derive(Debug, Clone, Copy, PartialEq, Eq, Hash, Structural)]
pub enum DataLoc {
    GpuMemory,
    HostMemory,
    Nvme,
    Remote,
    Recompute,
}

impl DataLoc {
    /// The short name of a location.
    pub open spec fn label(self) -> Seq<char> {
        match self {
            DataLoc::GpuMemory => "gpu"@,
            DataLoc::HostMemory => "host"@,
            DataLoc::Nvme => "nvme"@,
            DataLoc::Remote => "remote"@,
            DataLoc::Recompute => "recompute"@,
        }
    }

    pub fn as_str(&self) -> (s: &'static str)
        ensures
            s@ == self.label(),
    {
        match self {
            DataLoc::GpuMemory => "gpu",
            DataLoc::HostMemory => "host",
            DataLoc::Nvme => "nvme",
            DataLoc::Remote => "remote",
            DataLoc::Recompute => "recompute",
        }
    }
}

/// An intermediate object that a later stage needs.
#[derive(Debug, Clone, Copy)]
pub struct ObjectSpec {
    pub id: ObjectId,
    pub size_bytes: u64,
    pub loc: DataLoc,
}

impl ObjectSpec {
    pub fn new(id: ObjectId, size_bytes: u64, loc: DataLoc) -> (o: Self)
        ensures
            o == (ObjectSpec { id, size_bytes, loc }),
    {
        ObjectSpec { id, size_bytes, loc }
    }

    /// The seed of the object's synthetic bytes: its id, so they are the same in every run.
    pub fn seed(&self) -> (s: u64)
        ensures
            s == self.id,
    {
        self.id
    }
}

} // verus!
