//! The Sway provider. Its IPC protocol is not read yet: it names the
//! application `sway` once.

use vstd::prelude::*;
use vstd::string::*;
use crate::record::Event;

verus! {

pub struct SwayProvider;

impl SwayProvider {
    /// The one event it sends: class `sway`, empty title.
    pub fn event() -> (e: Event)
        ensures
            e matches Event::AppChange { class, title } && class@ == "sway"@ && title@ == Seq::<
                char,
            >::empty(),
    {
        Event::AppChange { class: String::from_str("sway"), title: String::new() }
    }
}

} // verus!
