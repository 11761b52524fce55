use vstd::prelude::*;

verus! {

/// The hotbar: the blocks the player carries, which one is selected, and whether its
/// icon must be rebuilt.
pub struct Inventory<B> {
    pub contents: Vec<B>,
    pub index: usize,
    pub is_icon_flat: bool,
    pub is_updated: bool,
}

/// The slot a digit key selects: keys `1` to `9` pick slots `0` to `8`.
pub open spec fn spec_index(digit: u8) -> Option<usize> {
    if 1 <= digit <= 9 {
        Some((digit - 1) as usize)
    } else {
        None
    }
}

/// A redraw of the hotbar icon, over the flags `(is_updated, is_icon_flat)`: when a rebuild
/// is due, the icon is rebuilt with flatness `rebuilt_flat` and the request cleared. Gives
/// the new flags and whether the icon's transform is to be rewritten: when the surface was
/// resized, or the rebuilt icon's flatness differs from the old one.
pub open spec fn redraw_step(flags: (bool, bool), is_resized: bool, rebuilt_flat: bool) -> ((
    bool,
    bool,
), bool) {
    let (is_updated, is_icon_flat) = flags;
    if is_updated {
        ((false, rebuilt_flat), is_resized || is_icon_flat != rebuilt_flat)
    } else {
        ((false, is_icon_flat), is_resized)
    }
}

/// The events the hotbar reacts to.
pub enum InventoryEvent<B> {
    /// The server sent the player's inventory.
    PlayerInitialized(Vec<B>),
    /// A digit key was pressed.
    DigitPressed(u8),
    /// A frame is drawn: whether the surface was resized, and whether the icon of the
    /// selected block is flat (read only when the icon is rebuilt).
    RedrawRequested { is_resized: bool, selected_is_flat: bool },
    /// Any other event.
    Other,
}

impl<B: Copy> Inventory<B> {
    /// An empty inventory whose icon is yet to be built.
    pub fn new() -> (res: Self)
        ensures
            res.contents@.len() == 0,
            res.index == 0,
            !res.is_icon_flat,
            res.is_updated,
    {
        Inventory { contents: Vec::new(), index: 0, is_icon_flat: false, is_updated: true }
    }

    /// The block in the selected slot, if the slot holds one.
    pub fn selected_block(&self) -> (res: Option<B>)
        ensures
            res == (if self.index < self.contents@.len() {
                Some(self.contents@[self.index as int])
            } else {
                None
            }),
    {
        if self.index < self.contents.len() {
            Some(self.contents[self.index])
        } else {
            None
        }
    }

    /// The slot that a digit key selects.
    pub fn index(digit: u8) -> (res: Option<usize>)
        ensures
            res == spec_index(digit),
    {
        if 1 <= digit && digit <= 9 {
            Some((digit - 1) as usize)
        } else {
            None
        }
    }

    /// The server sent the player's inventory: the icon must be rebuilt.
    pub fn set_contents(&mut self, contents: Vec<B>)
        ensures
            final(self).contents@ == contents@,
            final(self).index == old(self).index,
            final(self).is_icon_flat == old(self).is_icon_flat,
            final(self).is_updated,
    {
        self.contents = contents;
        self.is_updated = true;
    }

    /// A digit key was pressed: selects its slot. The icon is to be rebuilt exactly when
    /// the selection moved, whatever was pending before.
    pub fn press_digit(&mut self, digit: u8)
        ensures
            final(self).contents@ == old(self).contents@,
            final(self).is_icon_flat == old(self).is_icon_flat,
            match spec_index(digit) {
                Some(idx) => final(self).index == idx && final(self).is_updated == (old(
                    self,
                ).index != idx),
                None => final(self).index == old(self).index && final(self).is_updated == old(
                    self,
                ).is_updated,
            },
    {
        match Self::index(digit) {
            Some(idx) => {
                let previous = self.index;
                self.index = idx;
                self.is_updated = previous != idx;
            },
            None => {},
        }
    }

    /// Starts a redraw: tells whether the icon must be rebuilt, and clears the request.
    pub fn take_update(&mut self) -> (res: bool)
        ensures
            res == old(self).is_updated,
            !final(self).is_updated,
            final(self).contents@ == old(self).contents@,
            final(self).index == old(self).index,
            final(self).is_icon_flat == old(self).is_icon_flat,
    {
        let res = self.is_updated;
        self.is_updated = false;
        res
    }

    /// A redraw: when a rebuild is due, `rebuilt_flat` tells whether the icon built from the
    /// selected block is flat (it is not read otherwise). Returns whether the icon's transform
    /// is to be rewritten.
    pub fn redraw(&mut self, is_resized: bool, rebuilt_flat: bool) -> (res: bool)
        ensures
            ((final(self).is_updated, final(self).is_icon_flat), res) == redraw_step(
                (old(self).is_updated, old(self).is_icon_flat),
                is_resized,
                rebuilt_flat,
            ),
            final(self).contents@ == old(self).contents@,
            final(self).index == old(self).index,
    {
        let mut is_transform_outdated = is_resized;
        if self.take_update() {
            if self.set_icon_flat(rebuilt_flat) {
                is_transform_outdated = true;
            }
        }
        is_transform_outdated
    }

    /// Records whether the rebuilt icon is flat; tells whether that changed, in which case
    /// the icon's transform is outdated.
    pub fn set_icon_flat(&mut self, is_icon_flat: bool) -> (res: bool)
        ensures
            res == (old(self).is_icon_flat != is_icon_flat),
            final(self).is_icon_flat == is_icon_flat,
            final(self).contents@ == old(self).contents@,
            final(self).index == old(self).index,
            final(self).is_updated == old(self).is_updated,
    {
        let previous = self.is_icon_flat;
        self.is_icon_flat = is_icon_flat;
        previous != is_icon_flat
    }

    /// Reacts to an event; returns whether the icon's transform is to be rewritten, which
    /// only a redraw can ask for: when the surface was resized, or when a rebuild was due
    /// and the icon's flatness changed. A second redraw without a resize changes nothing.
    pub fn handle(&mut self, event: InventoryEvent<B>) -> (res: bool)
        ensures
            match event {
                InventoryEvent::PlayerInitialized(contents) => {
                    &&& !res
                    &&& final(self).contents@ == contents@
                    &&& final(self).index == old(self).index
                    &&& final(self).is_icon_flat == old(self).is_icon_flat
                    &&& final(self).is_updated
                },
                InventoryEvent::DigitPressed(digit) => {
                    &&& !res
                    &&& final(self).contents@ == old(self).contents@
                    &&& final(self).is_icon_flat == old(self).is_icon_flat
                    &&& match spec_index(digit) {
                        Some(idx) => final(self).index == idx && final(self).is_updated == (old(
                            self,
                        ).index != idx),
                        None => final(self).index == old(self).index && final(self).is_updated
                            == old(self).is_updated,
                    }
                },
                InventoryEvent::RedrawRequested { is_resized, selected_is_flat } => {
                    &&& ((final(self).is_updated, final(self).is_icon_flat), res) == redraw_step(
                        (old(self).is_updated, old(self).is_icon_flat),
                        is_resized,
                        selected_is_flat,
                    )
                    &&& final(self).contents@ == old(self).contents@
                    &&& final(self).index == old(self).index
                },
                InventoryEvent::Other => {
                    &&& !res
                    &&& final(self).contents@ == old(self).contents@
                    &&& final(self).index == old(self).index
                    &&& final(self).is_icon_flat == old(self).is_icon_flat
                    &&& final(self).is_updated == old(self).is_updated
                },
            },
    {
        match event {
            InventoryEvent::PlayerInitialized(contents) => {
                self.set_contents(contents);
                false
            },
            InventoryEvent::DigitPressed(digit) => {
                self.press_digit(digit);
                false
            },
            InventoryEvent::RedrawRequested { is_resized, selected_is_flat } => {
                self.redraw(is_resized, selected_is_flat)
            },
            InventoryEvent::Other => false,
        }
    }
}

/// A second redraw without a resize changes nothing and rewrites nothing, whatever the
/// icon would be.
pub proof fn lemma_second_redraw_idle(
    flags: (bool, bool),
    is_resized: bool,
    rebuilt_flat: bool,
    again_flat: bool,
)
    ensures
        ({
            let (after, _) = redraw_step(flags, is_resized, rebuilt_flat);
            redraw_step(after, false, again_flat) == (after, false)
        }),
{
}

} // verus!
