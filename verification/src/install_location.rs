//! Parsing an install-location directive.

use vstd::prelude::*;
use vstd::string::*;
use crate::strutil::{starts_with, starts_with_spec, substr_copy};

verus! {

/// Where packaged resources are installed.
#[derive(Clone, Debug)]
pub enum InstallLocation {
    /// Embedded in the produced binary.
    Embedded,
    /// On the filesystem, relative to the built application.
    AppRelative { path: String },
}

/// Parse an install-location directive: `embedded`, or
/// `app-relative:{path}`. Anything else is rejected with a message
/// naming the value.
pub fn resolve_install_location(value: &str) -> (r: Result<InstallLocation, String>)
    ensures
        value@ == "embedded"@ ==> r matches Ok(InstallLocation::Embedded),
        value@ != "embedded"@ && starts_with_spec(value@, "app-relative:"@) ==> (r matches Ok(
            InstallLocation::AppRelative { path },
        ) && path@ == value@.subrange(13, value@.len() as int)),
        value@ != "embedded"@ && !starts_with_spec(value@, "app-relative:"@) ==> (r matches Err(m)
            && m@ == "invalid install_location: "@ + value@),
{
    proof {
        reveal_strlit("embedded");
        reveal_strlit("app-relative:");
        assert("app-relative:"@.len() == 13);
    }
    if crate::strutil::str_eq(value, "embedded") {
        Ok(InstallLocation::Embedded)
    } else if starts_with(value, "app-relative:") {
        let n = value.unicode_len();
        let path = substr_copy(value, 13, n);
        Ok(InstallLocation::AppRelative { path })
    } else {
        Err(String::from_str("invalid install_location: ").concat(value))
    }
}

} // verus!
