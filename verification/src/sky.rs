use vstd::prelude::*;

verus! {

/// The events the sky reacts to.
pub enum SkyEvent<T> {
    /// The server sent a new time of day.
    TimeUpdated(T),
    /// A frame is drawn.
    RedrawRequested,
    /// Any other event.
    Other,
}

/// The sky's upload bookkeeping: the latest time of day the server sent that the sky's
/// uniform does not show yet.
pub struct Sky<T> {
    pub updated_time: Option<T>,
}

impl<T> Sky<T> {
    /// A sky whose first redraw uploads `initial`.
    pub fn new(initial: T) -> (res: Self)
        ensures
            res.updated_time == Some(initial),
    {
        Sky { updated_time: Some(initial) }
    }

    /// The server sent a new time of day: it replaces any time not uploaded yet.
    pub fn time_updated(&mut self, time: T)
        ensures
            final(self).updated_time == Some(time),
    {
        self.updated_time = Some(time);
    }

    /// A redraw: gives the time to upload, the latest one received since the last upload,
    /// if any; a second redraw without a new time uploads nothing.
    pub fn redraw(&mut self) -> (res: Option<T>)
        ensures
            res == old(self).updated_time,
            final(self).updated_time is None,
    {
        self.updated_time.take()
    }

    /// Reacts to an event; returns the time of day to upload to the sky's uniform. Only
    /// a redraw uploads, and then the latest time received since the last upload, if
    /// any: a second redraw in a row uploads nothing.
    pub fn handle(&mut self, event: SkyEvent<T>) -> (res: Option<T>)
        ensures
            match event {
                SkyEvent::TimeUpdated(time) => {
                    &&& res is None
                    &&& final(self).updated_time == Some(time)
                },
                SkyEvent::RedrawRequested => {
                    &&& res == old(self).updated_time
                    &&& final(self).updated_time is None
                },
                SkyEvent::Other => {
                    &&& res is None
                    &&& final(self).updated_time == old(self).updated_time
                },
            },
    {
        match event {
            SkyEvent::TimeUpdated(time) => {
                self.time_updated(time);
                None
            },
            SkyEvent::RedrawRequested => self.redraw(),
            SkyEvent::Other => None,
        }
    }
}

} // verus!
