use vstd::prelude::*;

verus! {

/// The copy-destination bit of a GPU buffer's usage flags (`wgpu::BufferUsages::COPY_DST`).
pub const COPY_DST: u32 = 8;

/// How a GPU buffer starts out: filled with data that never changes, or uninitialized
/// (with a length for a slice) and written later.
pub enum MemoryState<'a, T: ?Sized, U = ()> {
    Immutable(&'a T),
    Uninit(U),
}

impl<'a, T: ?Sized, U> MemoryState<'a, T, U> {
    /// The usage flags of a buffer in this state: an uninitialized buffer must also be a
    /// copy destination, since it is written after creation.
    pub fn usage(&self, usage: u32) -> (res: u32)
        ensures
            res == (if self is Uninit {
                usage | COPY_DST
            } else {
                usage
            }),
    {
        if let MemoryState::Uninit(_) = self {
            usage | COPY_DST
        } else {
            usage
        }
    }
}

impl<'a, T: ?Sized, U: Clone> Clone for MemoryState<'a, T, U> {
    fn clone(&self) -> (res: Self) {
        match self {
            MemoryState::Immutable(data) => MemoryState::Immutable(data),
            MemoryState::Uninit(fallback) => MemoryState::Uninit(fallback.clone()),
        }
    }
}

impl<'a, T: ?Sized, U: Copy> Copy for MemoryState<'a, T, U> {

}

impl<'a, T> MemoryState<'a, T, ()> {
    /// The state of a single value that is written later.
    pub fn uninit() -> (res: Self)
        ensures
            res is Uninit,
    {
        MemoryState::Uninit(())
    }

    /// The value a buffer starts with, if any.
    pub fn value(self) -> (res: Option<&'a T>)
        ensures
            match self {
                MemoryState::Immutable(v) => res == Some(v),
                MemoryState::Uninit(_) => res is None,
            },
    {
        if let MemoryState::Immutable(value) = self {
            Some(value)
        } else {
            None
        }
    }
}

impl<'a, T> MemoryState<'a, [T], usize> {
    /// The data a slice buffer starts with, or the length of an uninitialized one.
    pub fn data(self) -> (res: Result<&'a [T], usize>)
        ensures
            match self {
                MemoryState::Immutable(d) => res is Ok && res->Ok_0 == d,
                MemoryState::Uninit(len) => res is Err && res->Err_0 == len,
            },
    {
        match self {
            MemoryState::Immutable(data) => Ok(data),
            MemoryState::Uninit(len) => Err(len),
        }
    }

    /// Whether a buffer in this state holds no element.
    pub fn is_empty(self) -> (res: bool)
        ensures
            res == match self {
                MemoryState::Immutable(d) => d@.len() == 0,
                MemoryState::Uninit(len) => len == 0,
            },
    {
        match self {
            MemoryState::Immutable(data) => data.len() == 0,
            MemoryState::Uninit(len) => len == 0,
        }
    }
}

/// The number of whole elements of `element_size` bytes in a buffer of `size` bytes, cut
/// to a `u32` as draw calls take it.
pub fn buffer_len(size: u64, element_size: u64) -> (res: u32)
    requires
        element_size > 0,
    ensures
        res == (size / element_size) as u32,
{
    (size / element_size) as u32
}

} // verus!
