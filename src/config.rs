//! The settings a session is started with.
use vstd::prelude::*;

verus! {

/// What went wrong while loading settings.
#[derive(Clone, Copy, Debug, PartialEq, Eq, Structural)]
pub enum ErrorKind {
    ConfigError,
}

/// Connection settings. TLS is always used; `ssl` and `insecure` are read
/// but do not change that.
#[derive(Debug, PartialEq)]
pub struct Conf {
    pub host: String,
    pub port: u16,
    pub password: String,
    pub ssl: bool,
    pub insecure: bool,
}

/// `ssl` when the settings leave it out.
pub fn default_ssl() -> (r: bool)
    ensures
        !r,
{
    false
}

/// `insecure` when the settings leave it out.
pub fn default_insecure() -> (r: bool)
    ensures
        !r,
{
    false
}

} // verus!
