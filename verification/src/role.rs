//! Process-wide connection role.
//!
//! A process is a plain single-player game, the shared host (server and
//! client in one process), or a joining client.  The role is set from the
//! menu and reset to single-player when the user leaves or a connection
//! times out.

use vstd::prelude::*;

verus! {

/// Which networking duties this process performs.
#[derive(Clone, Copy, Debug, PartialEq, Eq, Structural)]
pub enum HostClient {
    /// Runs both the server and a local client.
    Host,
    /// Connects to a remote host.
    Client,
    /// Single-player; no networking systems run.
    Play,
}

/// The process-wide role setting.
#[derive(Clone, Copy, Debug, PartialEq, Eq, Structural)]
pub struct MultiplayerSetting(pub HostClient);

/// True when any networking runs: the process hosts or joins.
pub fn run_if_online(host: &MultiplayerSetting) -> (r: bool)
    ensures
        r == (host.0 != HostClient::Play),
{
    !matches!(host.0, HostClient::Play)
}

/// True when the client-side sync systems run (a host also runs them).
pub fn run_if_client(host_or_join: &MultiplayerSetting) -> (r: bool)
    ensures
        r == (host_or_join.0 == HostClient::Client || host_or_join.0 == HostClient::Host),
{
    matches!(host_or_join.0, HostClient::Client | HostClient::Host)
}

/// True when the server-side relay systems run.
pub fn run_if_host(host: &MultiplayerSetting) -> (r: bool)
    ensures
        r == (host.0 == HostClient::Host),
{
    matches!(host.0, HostClient::Host)
}

/// Returns the role to single-player, as a timeout or an exit to the
/// menu demands.
pub fn reset_role(setting: &mut MultiplayerSetting)
    ensures
        final(setting).0 == HostClient::Play,
{
    setting.0 = HostClient::Play;
}

} // verus!
