//! Block devices: the size of a medium, and which buffers can be transferred.

use vstd::prelude::*;

verus! {

/// What the firmware says about a medium.
#[derive(Clone, Copy, PartialEq, Eq, Structural, Debug)]
pub struct Media {
    /// Number of the medium.
    pub media_id: u32,
    /// Index of the last block.
    pub last_block: u64,
    /// Length of a block in bytes.
    pub block_size: u32,
}

/// Why a transfer was refused.
#[derive(Clone, Copy, PartialEq, Eq, Structural, Debug)]
pub enum BlockError {
    /// The buffer is not a whole number of blocks.
    InvalidParameter,
}

/// Whether a buffer is a whole number of blocks.
pub open spec fn whole_blocks(buffer_len: usize, block_size: u32) -> bool {
    block_size != 0 && buffer_len as int % block_size as int == 0
}

impl Media {
    /// Length of the medium in bytes. The firmware gives the index of the last block, so there is
    /// one block more.
    #[must_use]
    pub fn size(&self) -> (bytes: u64)
        requires
            (self.last_block + 1) * self.block_size <= u64::MAX,
            self.last_block < u64::MAX,
        ensures
            bytes == (self.last_block + 1) * self.block_size,
    {
        (self.last_block + 1) * self.block_size as u64
    }

    /// Length of a block in bytes.
    #[must_use]
    pub fn block_size(&self) -> (bytes: u32)
        ensures
            bytes == self.block_size,
    {
        self.block_size
    }

    /// Checks the buffer of a transfer and returns how many bytes will be transferred: all of it.
    ///
    /// # Errors
    /// [`BlockError::InvalidParameter`] if the buffer is not a whole number of blocks.
    pub fn check_transfer(&self, buffer_len: usize) -> (result: Result<usize, BlockError>)
        ensures
            result == (if whole_blocks(buffer_len, self.block_size) {
                Ok::<usize, BlockError>(buffer_len)
            } else {
                Err(BlockError::InvalidParameter)
            }),
            result is Ok <==> self.block_size != 0 && buffer_len as int % self.block_size as int
                == 0,
            result matches Ok(bytes) ==> bytes == buffer_len,
    {
        match check_buffer(buffer_len, self.block_size) {
            Ok(()) => Ok(buffer_len),
            Err(error) => Err(error),
        }
    }
}

/// Checks that a buffer is a whole number of blocks.
///
/// # Errors
/// [`BlockError::InvalidParameter`] if it is not, or if blocks have no length.
pub fn check_buffer(buffer_len: usize, block_size: u32) -> (result: Result<(), BlockError>)
    ensures
        result == (if whole_blocks(buffer_len, block_size) {
            Ok::<(), BlockError>(())
        } else {
            Err(BlockError::InvalidParameter)
        }),
        result is Ok <==> block_size != 0 && buffer_len as int % block_size as int == 0,
{
    if block_size == 0 || buffer_len % (block_size as usize) != 0 {
        return Err(BlockError::InvalidParameter);
    }
    Ok(())
}

} // verus!
