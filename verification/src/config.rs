//! Account settings and command-line arguments.

use vstd::prelude::*;

verus! {

/// Account settings of the storage service, as read from the configuration file.
pub struct Info {
    /// Service endpoint, such as `oss-cn-hangzhou.aliyuncs.com`.
    pub endpoint: String,
    /// Public part of the access key.
    pub access_key_id: String,
    /// Secret part of the access key.
    pub access_key_scret: String,
    /// Bucket that holds the objects.
    pub bucket: String,
}

/// The command line: an optional subcommand.
pub struct AppArgs {
    pub up: Option<Sub>,
}

/// The subcommands.
#[allow(non_snake_case)]
#[allow(inconsistent_fields)]
pub enum Sub {
    /// Upload the local file `Src` to the object `Dec`.
    Up { Src: String, Dec: String },
    /// Download the object `Src`, to the local file `Dec` when given, else to a file
    /// named after the object.
    Down { Src: String, Dec: Option<String> },
}

} // verus!
