//! What the daemon remembers between runs.
use vstd::prelude::*;

verus! {

/// The position of the current mode in the configuration, and its name.
#[derive(Debug)]
pub struct State {
    pub index_mod: usize,
    pub current_mode: String,
}

impl State {
    /// A fresh state: the first mode, with no mode applied yet.
    pub fn new() -> (st: Self)
        ensures
            st.index_mod == 0,
            st.current_mode@ == Seq::<char>::empty(),
    {
        State { index_mod: 0, current_mode: String::new() }
    }
}

} // verus!
