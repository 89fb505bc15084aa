//! The fallback provider, for sessions without a supported compositor.

use vstd::prelude::*;
use crate::record::Event;

verus! {

/// Gives no application context.
pub struct NullProvider;

impl NullProvider {
    /// The one event it sends: an application with empty class and title.
    pub fn event() -> (e: Event)
        ensures
            e matches Event::AppChange { class, title } && class@ == Seq::<char>::empty() && title@
                == Seq::<char>::empty(),
    {
        Event::AppChange { class: String::new(), title: String::new() }
    }
}

} // verus!
