//! Process configuration: the retention window, the host used to build
//! download links, and the base directory for blob storage.  A configuration
//! value is built once at startup and handed to the engine; the engine only
//! accepts a validated one.

use vstd::prelude::*;
use vstd::string::StrSliceExecFns;
use crate::strutil::copy_str;
use crate::strutil::str_eq;

verus! {

/// Largest clock reading (seconds since the epoch) the engine accepts;
/// the end of year 9999, which keeps every timestamp it derives printable.
pub const MAX_TIMESTAMP: i64 = 253402300799;

/// Largest retention window (one hundred years in seconds) a configuration
/// may carry; keeps `created_at + retention_time` within `i64`.
pub const MAX_RETENTION_SECONDS: u64 = 3153600000;

/// Abstract value of a [`Configuration`].
pub ghost struct ConfigModel {
    pub retention_time: int,
    pub download_url: Seq<char>,
    pub file_storage_location: Seq<char>,
}

impl ConfigModel {
    /// A configuration the engine accepts: a positive, bounded retention
    /// window and non-empty host and storage-directory names.
    pub open spec fn valid(self) -> bool {
        &&& 1 <= self.retention_time <= MAX_RETENTION_SECONDS as int
        &&& self.download_url.len() > 0
        &&& self.file_storage_location.len() > 0
    }
}

/// One environment's settings.
pub struct Configuration {
    pub retention_time: u64,
    pub download_url: String,
    pub file_storage_location: String,
}

impl View for Configuration {
    type V = ConfigModel;

    open spec fn view(&self) -> ConfigModel {
        ConfigModel {
            retention_time: self.retention_time as int,
            download_url: self.download_url@,
            file_storage_location: self.file_storage_location@,
        }
    }
}

/// A configuration failure is fatal at startup: either the configuration
/// source was absent, or the values in it are unusable.
#[derive(Debug, PartialEq, Eq)]
pub enum ConfigError {
    ConfigMissing,
    ConfigInvalid,
}

impl Configuration {
    /// Accepts exactly the configurations that [`ConfigModel::valid`] allows.
    pub fn validate(&self) -> (r: Result<(), ConfigError>)
        ensures
            r is Ok <==> self@.valid(),
    {
        if self.retention_time >= 1 && self.retention_time <= MAX_RETENTION_SECONDS
            && self.download_url.as_str().unicode_len() > 0
            && self.file_storage_location.as_str().unicode_len() > 0 {
            Ok(())
        } else {
            Err(ConfigError::ConfigInvalid)
        }
    }

    /// An owned copy with the same abstract value.
    pub fn duplicate(&self) -> (r: Configuration)
        ensures
            r@ == self@,
    {
        Configuration {
            retention_time: self.retention_time,
            download_url: copy_str(self.download_url.as_str()),
            file_storage_location: copy_str(self.file_storage_location.as_str()),
        }
    }
}

/// The whole configuration file: one section per environment.
pub struct ConfigurationMain {
    pub development: Configuration,
    pub staging: Configuration,
    pub production: Configuration,
}

/// Chooses the section that the named environment selects: `STAGING` and
/// `PRODUCTION` select their sections, anything else falls back to
/// development.
pub fn select_config(all: &ConfigurationMain, environment: &str) -> (r: Configuration)
    ensures
        environment@ == "STAGING"@ ==> r@ == all.staging@,
        environment@ != "STAGING"@ && environment@ == "PRODUCTION"@ ==> r@ == all.production@,
        environment@ != "STAGING"@ && environment@ != "PRODUCTION"@ ==> r@ == all.development@,
{
    if str_eq(environment, "STAGING") {
        all.staging.duplicate()
    } else if str_eq(environment, "PRODUCTION") {
        all.production.duplicate()
    } else {
        all.development.duplicate()
    }
}

}
