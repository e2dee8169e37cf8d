//! The settings of the engine's HTTP client.
use vstd::prelude::*;
use crate::config::{DownloadConfig, Span};

verus! {

/// What the HTTP client is built with.
#[derive(Debug, Clone)]
pub struct ClientSettings {
    pub timeout: Span,
    pub tcp_nodelay: bool,
    pub pool_idle_timeout: Span,
    pub pool_max_idle_per_host: usize,
    pub user_agent: String,
    pub tcp_keepalive: Span,
    /// Accept invalid TLS certificates, to get past some TLS blocks.
    pub accept_invalid_certs: bool,
    /// Ignore the system proxy settings.
    pub no_proxy: bool,
    /// Keep cookies between requests.
    pub cookie_store: bool,
}

/// Builds the engine's HTTP client from its settings.
pub struct OptimizedClientBuilder {
    config: DownloadConfig,
}

impl OptimizedClientBuilder {
    /// The settings the client is built from.
    pub closed spec fn config(&self) -> DownloadConfig {
        self.config
    }

    pub fn new(config: DownloadConfig) -> (r: Self)
        ensures
            r.config() == config,
    {
        OptimizedClientBuilder { config }
    }

    /// The client settings: the configured timeout and user agent, the
    /// configured idle timeout (90 s when unset), no Nagle delay, up to 32
    /// idle connections per host, 60 s keep-alive, and the bypass options:
    /// invalid certificates accepted, no system proxy, a cookie store.
    pub fn settings(self) -> (r: ClientSettings)
        ensures
            r.timeout == self.config().timeout,
            r.tcp_nodelay,
            r.pool_idle_timeout == (match self.config().pool_idle_timeout {
                Some(t) => t,
                None => (Span { secs: 90, nanos: 0 }),
            }),
            r.pool_max_idle_per_host == 32,
            r.user_agent@ == self.config().user_agent@,
            r.tcp_keepalive == (Span { secs: 60, nanos: 0 }),
            r.accept_invalid_certs,
            r.no_proxy,
            r.cookie_store,
    {
        let idle = match self.config.pool_idle_timeout {
            Some(t) => t,
            None => Span::from_secs(90),
        };
        ClientSettings {
            timeout: self.config.timeout,
            tcp_nodelay: true,
            pool_idle_timeout: idle,
            pool_max_idle_per_host: 32,
            user_agent: self.config.user_agent,
            tcp_keepalive: Span::from_secs(60),
            accept_invalid_certs: true,
            no_proxy: true,
            cookie_store: true,
        }
    }
}

} // verus!
