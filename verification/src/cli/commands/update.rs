//! `update`: reinstall the latest version with the shell installer.
use vstd::prelude::*;

verus! {

/// Where the installer script is fetched from.
pub const INSTALL_URL: &'static str =
    "https://raw.githubusercontent.com/haphuongmoethptthanglong-dev/contriblat/main/install.sh";

/// The shell command that runs the installer: `curl -fsSL {url} | bash`.
pub fn installer_command() -> (r: String)
    ensures
        r@ == "curl -fsSL "@ + INSTALL_URL@ + " | bash"@,
{
    let mut s = String::from_str("curl -fsSL ");
    s.append(INSTALL_URL);
    s.append(" | bash");
    s
}

} // verus!
