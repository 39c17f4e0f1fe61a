//! A notice shown to a user.
use vstd::prelude::*;

verus! {

#[derive(Clone, Copy, Debug, PartialEq, Eq, Structural)]
pub enum NotifyType {
    Error,
    Success,
    Warning,
}

#[derive(Debug)]
pub struct Notification {
    pub is_active: bool,
    pub message: String,
    pub notify_type: NotifyType,
}

impl Notification {
    /// A notice that is not shown yet.
    pub fn new(message: String, notify_type: NotifyType) -> (r: Self)
        ensures
            !r.is_active,
            r.message == message,
            r.notify_type == notify_type,
    {
        Self { is_active: false, message, notify_type }
    }

    pub fn disable(&mut self)
        ensures
            !final(self).is_active,
            final(self).message == old(self).message,
            final(self).notify_type == old(self).notify_type,
    {
        self.is_active = false;
    }

    pub fn enable(&mut self)
        ensures
            final(self).is_active,
            final(self).message == old(self).message,
            final(self).notify_type == old(self).notify_type,
    {
        self.is_active = true;
    }
}

} // verus!
