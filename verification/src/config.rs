//! Configuration, consumed as plain values.  The embedding program loads
//! these from wherever it keeps them; the defaults are here.

use vstd::prelude::*;

verus! {

/// Server-side knobs.
pub struct ServerConfig {
    pub max_count_of_evictor_list: usize,
    pub max_count_of_connection: usize,
    pub serve_count_by_adapter: usize,
}

impl ServerConfig {
    /// The documented defaults.
    pub fn new() -> (r: Self)
        ensures
            r.max_count_of_evictor_list == 5,
            r.max_count_of_connection == 10,
            r.serve_count_by_adapter == 3,
    {
        ServerConfig {
            max_count_of_evictor_list: 5,
            max_count_of_connection: 10,
            serve_count_by_adapter: 3,
        }
    }
}

/// Client-side knobs.
pub struct ClientConfig {
    pub token_count_by_terminal: usize,
    pub callback_count_by_terminal: usize,
    pub invoke_timeout_in_terminal: u64,
}

impl ClientConfig {
    /// The documented defaults.
    pub fn new() -> (r: Self)
        ensures
            r.token_count_by_terminal == 2,
            r.callback_count_by_terminal == 2,
            r.invoke_timeout_in_terminal == 5000,
    {
        ClientConfig {
            token_count_by_terminal: 2,
            callback_count_by_terminal: 2,
            invoke_timeout_in_terminal: 5000,
        }
    }
}

} // verus!
