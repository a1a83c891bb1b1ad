//! Runner configuration: workspace location and cache ceiling, scheduler
//! endpoint and retry policy, container namespace. The retry growth factor
//! is kept in hundredths, so a value of 125 grows the period by a quarter
//! per failure.

use vstd::prelude::*;
use vstd::string::*;

use crate::text::{chars_of, parse_u64_chars, spec_parse_u64};

verus! {

/// Where the workspace lives and how large it may grow.
#[derive(Debug, Clone, PartialEq)]
pub struct ConfigWorkspace {
    pub path: String,
    /// Cache ceiling in megabytes, as the decimal text found in the
    /// configuration file.
    pub cache_limit: String,
    pub ssh_clone_key: Option<String>,
}

/// How to reach the scheduler and how to back off between attempts.
#[derive(Debug, Clone, PartialEq)]
pub struct ConfigScheduler {
    pub base_url: String,
    pub token: String,
    /// Initial backoff period, in seconds.
    pub retry_period: u64,
    /// Backoff growth per failure, in hundredths.
    pub retry_scale_hundredths: u64,
    /// Backoff ceiling, in seconds.
    pub retry_scale_limit: u64,
}

/// Which container namespace the runner works in.
#[derive(Debug, Clone, PartialEq)]
pub struct ConfigContainer {
    pub namespace: String,
}

/// The full runner configuration.
#[derive(Debug, Clone, PartialEq)]
pub struct Config {
    pub workspace: ConfigWorkspace,
    pub scheduler: ConfigScheduler,
    pub container: ConfigContainer,
}

/// The configuration values that are invalid as found.
#[derive(Debug, Clone, PartialEq, Eq)]
pub enum ConfigError {
    /// The cache limit is not a decimal number of megabytes, or the
    /// resulting byte count does not fit a 64-bit machine.
    InvalidCacheLimit,
}

pub fn get_default_path() -> (r: String)
    ensures
        r@ == "chicon-workspace"@,
{
    String::from_str("chicon-workspace")
}

pub fn get_default_cache_limit() -> (r: String)
    ensures
        r@ == "200"@,
{
    String::from_str("200")
}

pub fn get_default_namespace() -> (r: String)
    ensures
        r@ == "kb"@,
{
    String::from_str("kb")
}

pub fn get_default_base_url() -> (r: String)
    ensures
        r@ == "localhost:3000"@,
{
    String::from_str("localhost:3000")
}

pub fn get_default_retry_period() -> (r: u64)
    ensures
        r == 5,
{
    5
}

/// The default backoff growth: one quarter more per failure.
pub fn get_default_retry_scale_hundredths() -> (r: u64)
    ensures
        r == 125,
{
    125
}

pub fn get_default_retry_limit() -> (r: u64)
    ensures
        r == 30,
{
    30
}

impl Default for ConfigWorkspace {
    /// The built-in workspace settings, used when no file provides any.
    fn default() -> (c: ConfigWorkspace)
        ensures
            c.path@ == "chicon-workspace"@,
            c.cache_limit@ == "200"@,
            c.ssh_clone_key is None,
    {
        ConfigWorkspace {
            path: get_default_path(),
            cache_limit: get_default_cache_limit(),
            ssh_clone_key: None,
        }
    }
}

impl Default for ConfigScheduler {
    /// The built-in scheduler settings. The token defaults to empty here;
    /// the surrounding process may fill it from its environment.
    fn default() -> (c: ConfigScheduler)
        ensures
            c.base_url@ == "localhost:3000"@,
            c.token@ == Seq::<char>::empty(),
            c.retry_period == 5,
            c.retry_scale_hundredths == 125,
            c.retry_scale_limit == 30,
    {
        ConfigScheduler {
            base_url: get_default_base_url(),
            token: String::new(),
            retry_period: get_default_retry_period(),
            retry_scale_hundredths: get_default_retry_scale_hundredths(),
            retry_scale_limit: get_default_retry_limit(),
        }
    }
}

impl Default for ConfigContainer {
    fn default() -> (c: ConfigContainer)
        ensures
            c.namespace@ == "kb"@,
    {
        ConfigContainer { namespace: get_default_namespace() }
    }
}

impl Default for Config {
    fn default() -> (c: Config)
        ensures
            c.workspace.path@ == "chicon-workspace"@,
            c.workspace.cache_limit@ == "200"@,
            c.workspace.ssh_clone_key is None,
            c.scheduler.base_url@ == "localhost:3000"@,
            c.scheduler.token@ == Seq::<char>::empty(),
            c.scheduler.retry_period == 5,
            c.scheduler.retry_scale_hundredths == 125,
            c.scheduler.retry_scale_limit == 30,
            c.container.namespace@ == "kb"@,
    {
        Config {
            workspace: ConfigWorkspace::default(),
            scheduler: ConfigScheduler::default(),
            container: ConfigContainer::default(),
        }
    }
}

impl Config {
    /// The cache ceiling in bytes: the configured number of megabytes times
    /// one million. Fails when the text is not a number or the byte count
    /// does not fit.
    pub fn get_cache_bytes(&self) -> (r: Result<u64, ConfigError>)
        ensures
            match r {
                Ok(b) => {
                    &&& spec_parse_u64(self.workspace.cache_limit@) is Some
                    &&& spec_parse_u64(self.workspace.cache_limit@)->0 <= u64::MAX / 1_000_000
                    &&& b == spec_parse_u64(self.workspace.cache_limit@)->0 * 1_000_000
                },
                Err(e) => {
                    &&& e == ConfigError::InvalidCacheLimit
                    &&& (spec_parse_u64(self.workspace.cache_limit@) is None
                        || spec_parse_u64(self.workspace.cache_limit@)->0 > u64::MAX / 1_000_000)
                },
            },
    {
        let chars = chars_of(self.workspace.cache_limit.as_str());
        let parsed = parse_u64_chars(&chars);
        match parsed {
            Some(mb) => {
                if mb <= u64::MAX / 1_000_000 {
                    proof {
                        assert(mb * 1_000_000 <= (u64::MAX / 1_000_000) * 1_000_000)
                            by (nonlinear_arith)
                            requires
                                mb <= u64::MAX / 1_000_000,
                        ;
                    }
                    Ok(mb * 1_000_000)
                } else {
                    Err(ConfigError::InvalidCacheLimit)
                }
            },
            None => Err(ConfigError::InvalidCacheLimit),
        }
    }

    /// Replaces the workspace path, leaving everything else unchanged.
    pub fn set_workspace_path(&mut self, path: &str)
        ensures
            final(self).workspace.path@ == path@,
            final(self).workspace.cache_limit == old(self).workspace.cache_limit,
            final(self).workspace.ssh_clone_key == old(self).workspace.ssh_clone_key,
            final(self).scheduler == old(self).scheduler,
            final(self).container == old(self).container,
    {
        self.workspace.path = String::from_str(path);
    }

    /// Replaces the container namespace, leaving everything else unchanged.
    pub fn set_container_namespace(&mut self, namespace: &str)
        ensures
            final(self).container.namespace@ == namespace@,
            final(self).workspace == old(self).workspace,
            final(self).scheduler == old(self).scheduler,
    {
        self.container.namespace = String::from_str(namespace);
    }
}

} // verus!
