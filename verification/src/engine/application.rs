use vstd::prelude::*;

verus! {

/// Events the engine can send to the application.
#[derive(Clone, Copy, PartialEq, Eq, Structural, Debug)]
pub enum AppEvent {
    NoEvent,
}

impl AppEvent {
    /// The name of the event, as shown to users.
    pub fn to_string(&self) -> (s: String)
        ensures
            s@ == "None"@,
    {
        match self {
            AppEvent::NoEvent => String::from_str("None"),
        }
    }
}

} // verus!
