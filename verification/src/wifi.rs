//! Choice of the wireless client settings.
use vstd::prelude::*;

verus! {

/// Name and passphrase of the network that the device joins.
pub struct WifiConfig {
    pub ssid: &'static str,
    pub psk: &'static str,
}

/// How the client authenticates.
#[derive(Clone, Copy, Debug, PartialEq, Eq, Structural)]
pub enum AuthMethod {
    /// An open network.
    Open,
    /// WPA3 with a passphrase.
    Wpa3Personal,
}

/// Why no connection is attempted.
#[derive(Clone, Copy, Debug, PartialEq, Eq, Structural)]
pub enum WifiError {
    /// The network name is empty.
    MissingName,
}

/// The authentication that goes with a network name and a passphrase: none
/// for an empty passphrase, WPA3 otherwise. An empty network name is an
/// error.
pub open spec fn spec_wifi(ssid: Seq<char>, pass: Seq<char>) -> Result<AuthMethod, WifiError> {
    if ssid.len() == 0 {
        Err(WifiError::MissingName)
    } else if pass.len() == 0 {
        Ok(AuthMethod::Open)
    } else {
        Ok(AuthMethod::Wpa3Personal)
    }
}

/// Picks the authentication for the client configuration; see [`spec_wifi`].
pub fn wifi(ssid: &str, pass: &str) -> (res: Result<AuthMethod, WifiError>)
    ensures
        res == spec_wifi(ssid@, pass@),
{
    if ssid.is_empty() {
        Err(WifiError::MissingName)
    } else if pass.is_empty() {
        Ok(AuthMethod::Open)
    } else {
        Ok(AuthMethod::Wpa3Personal)
    }
}

} // verus!
