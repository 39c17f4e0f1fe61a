//! The failure of a pointer or touch interaction.
use vstd::prelude::*;
use crate::text::string_of;

verus! {

#[derive(Debug, Clone)]
pub struct EventError {
    pub message: String,
}

impl EventError {
    pub fn new(message: &str) -> (r: EventError)
        ensures
            r.message@ == message@,
    {
        EventError { message: string_of(message) }
    }
}

} // verus!
