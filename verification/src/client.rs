//! The client entry point: holds the client configuration and builds
//! terminals from it.  Opening the TCP connection is the embedding
//! program's work.

use vstd::prelude::*;

use crate::config::ClientConfig;
use crate::servant::NotifyServant;
use crate::terminal::Terminal;

verus! {

pub struct Client {
    config: ClientConfig,
}

impl Client {
    /// A client with the default configuration.
    pub fn new() -> (r: Self)
        ensures
            r.token_count() == 2,
            r.callback_count() == 2,
            r.invoke_timeout() == 5000,
    {
        Client { config: ClientConfig::new() }
    }

    /// A client with the given configuration.
    pub fn with_config(config: ClientConfig) -> (r: Self)
        ensures
            r.token_count() == config.token_count_by_terminal,
            r.callback_count() == config.callback_count_by_terminal,
            r.invoke_timeout() == config.invoke_timeout_in_terminal,
    {
        Client { config }
    }

    pub closed spec fn token_count(&self) -> usize {
        self.config.token_count_by_terminal
    }

    pub closed spec fn callback_count(&self) -> usize {
        self.config.callback_count_by_terminal
    }

    pub closed spec fn invoke_timeout(&self) -> u64 {
        self.config.invoke_timeout_in_terminal
    }

    /// A fresh terminal for `addr`, configured from this client; the
    /// embedding program connects it.
    pub fn terminal<N: NotifyServant>(&self, addr: String) -> (r: Terminal<N>)
        ensures
            r.wf(),
            r.pool() == self.token_count(),
            r.capacity() == self.token_count(),
            r.callback_capacity() == self.callback_count(),
            r.default_timeout() == self.invoke_timeout(),
            !r.connected(),
    {
        Terminal::new(
            addr,
            self.config.invoke_timeout_in_terminal,
            self.config.token_count_by_terminal,
            self.config.callback_count_by_terminal,
        )
    }
}

} // verus!
