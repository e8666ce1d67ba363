//! Load on the machine, to measure under.
use vstd::prelude::*;

use crate::util::fill_xorshift;

verus! {

/// Bytes per write of the file that contenders read: 64 MiB.
pub const FILE_CHUNK: usize = 0x400_0000;

/// The seed of the file's first chunk; each further chunk has the next one.
pub const FILE_SEED: u64 = 0x9E37_79B9_7F4A_7C15;

/// Bytes per read of a contender: 256 KiB.
pub const READ_BYTES: usize = 0x4_0000;

/// The pseudo-random file that contenders read, chunk by chunk.
#[derive(Debug, Clone, Copy, PartialEq, Eq, Structural)]
pub struct ContentionFile {
    pub remaining: u64,
    pub seed: u64,
}

impl ContentionFile {
    /// The size of the next chunk.
    pub open spec fn chunk(self) -> nat {
        if self.remaining < FILE_CHUNK {
            self.remaining as nat
        } else {
            FILE_CHUNK as nat
        }
    }

    /// A file of `size_bytes`.
    pub fn new(size_bytes: u64) -> (f: Self)
        ensures
            f.remaining == size_bytes,
            f.seed == FILE_SEED,
    {
        ContentionFile { remaining: size_bytes, seed: FILE_SEED }
    }

    /// The next chunk to write; `None` at the end.
    pub fn next_chunk(&mut self) -> (r: Option<Vec<u8>>)
        ensures
            match r {
                Some(bytes) => {
                    &&& old(self).remaining > 0
                    &&& bytes@ == crate::util::xorshift_bytes(old(self).seed, old(self).chunk())
                    &&& final(self).remaining == old(self).remaining - old(self).chunk()
                    &&& final(self).seed == (old(self).seed + 1) % 0x1_0000_0000_0000_0000
                },
                None => old(self).remaining == 0 && *final(self) == *old(self),
            },
    {
        if self.remaining == 0 {
            return None;
        }
        let n: usize = if self.remaining < FILE_CHUNK as u64 {
            self.remaining as usize
        } else {
            FILE_CHUNK
        };
        let mut buf: Vec<u8> = vec![0; n];
        fill_xorshift(&mut buf, self.seed);
        self.seed = self.seed.wrapping_add(1);
        self.remaining = self.remaining - n as u64;
        Some(buf)
    }
}

/// The file is written in chunks of 64 MiB, but for the last one, which is what is left.
pub proof fn files_go_by_sixty_four_mebibytes(file: ContentionFile)
    ensures
        file.remaining >= 0x400_0000 ==> file.chunk() == 0x400_0000,
        file.remaining < 0x400_0000 ==> file.chunk() == file.remaining,
{
}

} // verus!
