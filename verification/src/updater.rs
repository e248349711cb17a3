//! Newer releases of the program.

use vstd::prelude::*;
use vstd::string::*;

verus! {

/// A release that is newer than the program.
#[derive(Debug)]
pub struct UpdateInfo {
    pub version: String,
}

impl Clone for UpdateInfo {
    fn clone(&self) -> (r: UpdateInfo)
        ensures
            r.version@ == self.version@,
    {
        UpdateInfo { version: self.version.as_str().to_owned() }
    }
}

/// What is known of newer releases, given the version that was found, if any.
pub fn found_update(version: Option<String>) -> (r: Option<UpdateInfo>)
    ensures
        match r {
            Some(info) => version == Some(info.version),
            None => version is None,
        },
{
    match version {
        Some(version) => Some(UpdateInfo { version }),
        None => None,
    }
}

/// The line of the program's own log on newer releases.
pub fn update_line(found: &Option<UpdateInfo>) -> (r: String)
    ensures
        r@ == (match *found {
            Some(info) => "Update available: v"@ + info.version@,
            None => "App is up to date"@,
        }),
{
    match found {
        Some(info) => {
            let mut out: String = "Update available: v".to_owned();
            out.append(info.version.as_str());
            out
        },
        None => "App is up to date".to_owned(),
    }
}

} // verus!
