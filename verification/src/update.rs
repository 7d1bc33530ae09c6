//! The self-update subsystem's bookkeeping paths.
//!
//! The staging and swap of a new binary tree happen outside this library;
//! only the locations and the version string are computed here.

use vstd::prelude::*;
use vstd::string::*;
use crate::version::HOST_VERSION;

verus! {

/// What staging an update reports.
#[derive(Debug)]
pub struct UpdateStatus {
    pub restart_required: bool,
    pub current_version: String,
    pub package_version: String,
}

/// Computes where updates are staged and recorded.
#[derive(Debug, Clone)]
pub struct UpdateService;

impl UpdateService {
    pub fn new() -> (r: UpdateService)
        ensures
            true,
    {
        UpdateService
    }
}

/// `<root>/.update_pending.json`
pub fn pending_update_path(install_root: &str) -> (r: String)
    ensures
        r@ == install_root@ + "/.update_pending.json"@,
{
    String::from_str(install_root).concat("/.update_pending.json")
}

/// `<root>/.update_staging`
pub fn update_staging_root(install_root: &str) -> (r: String)
    ensures
        r@ == install_root@ + "/.update_staging"@,
{
    String::from_str(install_root).concat("/.update_staging")
}

/// The host's own version string.
pub fn current_version_string() -> (r: String)
    ensures
        r@ == HOST_VERSION@,
{
    String::from_str(HOST_VERSION)
}

} // verus!
