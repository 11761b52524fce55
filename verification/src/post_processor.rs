use vstd::prelude::*;

verus! {

/// Which of the post-processor's two screen textures holds the current image: effects
/// read the main texture and write the secondary one, then the two swap.
pub struct PostProcessor {
    pub index: bool,
}

/// The texture slot a flag selects.
pub open spec fn slot(flag: bool) -> usize {
    if flag {
        1
    } else {
        0
    }
}

impl PostProcessor {
    /// Starts with texture 0 as the main one.
    pub fn new() -> (res: Self)
        ensures
            !res.index,
    {
        PostProcessor { index: false }
    }

    /// Makes the texture just written the main one.
    pub fn swap(&mut self)
        ensures
            final(self).index == !old(self).index,
    {
        self.index = !self.index;
    }

    /// The texture that holds the current image.
    pub fn main_index(&self) -> (res: usize)
        ensures
            res == slot(self.index),
    {
        if self.index {
            1
        } else {
            0
        }
    }

    /// The texture an effect writes into.
    pub fn secondary_index(&self) -> (res: usize)
        ensures
            res == slot(!self.index),
    {
        if !self.index {
            1
        } else {
            0
        }
    }
}

/// The main and the secondary texture are always two distinct slots out of two, and a
/// swap hands each role to the other texture; two swaps restore the roles.
pub proof fn lemma_ping_pong(index: bool)
    ensures
        slot(index) != slot(!index),
        slot(index) < 2,
        slot(!index) < 2,
        slot(!(!index)) == slot(index),
{
}

/// The source and destination mip levels of each blit that fills a texture's mip
/// chain: level `i + 1` is drawn from level `i`, in order. A chain of at most one level
/// needs no blit.
pub open spec fn mip_chain_spec(count: u32) -> Seq<(u32, u32)> {
    if count == 0 {
        Seq::empty()
    } else {
        Seq::new((count - 1) as nat, |i: int| (i as u32, (i + 1) as u32))
    }
}

/// The blits that generate a texture's `count` mip levels from its base level; with no
/// level or only the base one there is nothing to blit.
pub fn mip_chain(count: u32) -> (res: Vec<(u32, u32)>)
    ensures
        res@ == mip_chain_spec(count),
{
    let mut res: Vec<(u32, u32)> = Vec::new();
    if count == 0 {
        return res;
    }
    let mut level: u32 = 1;
    while level < count
        invariant
            1 <= level <= count,
            res@.len() == level - 1,
            forall|i: int| 0 <= i < level - 1 ==> #[trigger] res@[i] == (i as u32, (i + 1) as u32),
        decreases count - level,
    {
        res.push((level - 1, level));
        level = level + 1;
    }
    proof {
        assert(res@ =~= mip_chain_spec(count));
    }
    res
}

} // verus!
