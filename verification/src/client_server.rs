//! The peer-agent service: receives pushed configuration text and decides
//! whether it must be applied.
//!
//! The decision core is verified here; the surrounding process performs
//! the actual file replacement and tunnel reload.  Applying the same text
//! twice is a no-op, so a repeated push has no observable effect.

use vstd::prelude::*;

verus! {

/// The peer agent's applied-configuration state.
pub struct MyWiresyncClientServerApi {
    /// The configuration text currently in effect, if any was applied.
    pub current_config: Option<String>,
}

/// The configuration `cfg` is already in effect in state `cur`.
pub open spec fn config_applied(cur: Option<String>, cfg: Seq<char>) -> bool {
    cur matches Some(c) && c@ == cfg
}

impl MyWiresyncClientServerApi {
    /// An agent that has not applied any configuration yet.
    pub fn new() -> (r: MyWiresyncClientServerApi)
        ensures
            r.current_config is None,
    {
        MyWiresyncClientServerApi { current_config: None }
    }

    /// The liveness greeting.
    pub fn say_hello(&self) -> (r: String)
        ensures
            r@ == "Hello!"@,
    {
        String::from_str("Hello!")
    }

    /// Accepts pushed configuration text.  Returns whether the text
    /// differs from what is in effect, in which case the caller must
    /// replace the persisted file and reload the tunnel; on `false` the
    /// push is a no-op.  Afterwards the given text is in effect either
    /// way.
    pub fn update_config(&mut self, config: String) -> (write_needed: bool)
        ensures
            config_applied(final(self).current_config, config@),
            write_needed == !config_applied(old(self).current_config, config@),
    {
        let same = match &self.current_config {
            Some(c0) => c0.eq(&config),
            None => false,
        };
        if same {
            false
        } else {
            self.current_config = Some(config);
            true
        }
    }
}

} // verus!
