//! The live-activity relay: where an update for a device goes on APNs.

use vstd::prelude::*;

verus! {

/// The APNs address an update for `device_token` is posted to:
/// `<apns_url>:<apns_port>/3/device/<device_token>`.
pub fn apns_request_url(apns_url: &str, apns_port: &str, device_token: &str) -> (u: String)
    ensures
        u@ == apns_url@ + ":"@ + apns_port@ + "/3/device/"@ + device_token@,
{
    let mut u = String::from_str(apns_url);
    u.append(":");
    u.append(apns_port);
    u.append("/3/device/");
    u.append(device_token);
    u
}

} // verus!
