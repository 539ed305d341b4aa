//! The WebSocket tunnel's decisions: the backend handshake gate and the two
//! forwarding loops' per-message steps. The sockets themselves live with the
//! process; each loop hands its next event in and performs the action handed
//! back.

use vstd::prelude::*;
use crate::metrics::{SocketMetrics, SocketMetricsGuard};

verus! {

/// What a forwarding loop saw next on its receiving half.
#[derive(Debug, Clone, Copy)]
pub enum TunnelEvent {
    Message { len: usize },
    Failed,
    Ended,
}

/// What the loop does with it.
#[derive(Debug, Clone, Copy, PartialEq, Eq, Structural)]
pub enum TunnelAction {
    Forward,
    CloseAndStop,
    Stop,
}

/// The backend must answer the opening handshake with 101 Switching
/// Protocols; any other status leaves the client unupgraded.
pub fn backend_handshake_ok(status_code: u16) -> (r: bool)
    ensures
        r == (status_code == 101),
{
    status_code == 101
}

/// One step of the client-to-backend loop: a message is counted as received
/// and forwarded; a read failure closes the backend half and ends the loop;
/// a closed stream ends it quietly.
pub fn tunnel_client_step(
    guard: &SocketMetricsGuard,
    metrics: &mut SocketMetrics,
    event: TunnelEvent,
) -> (a: TunnelAction)
    requires
        old(metrics).message_received < u64::MAX,
    ensures
        event matches TunnelEvent::Message { len } ==> a == TunnelAction::Forward && final(metrics).message_received == old(metrics).message_received + 1,
        event is Failed ==> a == TunnelAction::CloseAndStop && *final(metrics) == *old(metrics),
        event is Ended ==> a == TunnelAction::Stop && *final(metrics) == *old(metrics),
        final(metrics).clients == old(metrics).clients,
        final(metrics).message_sent == old(metrics).message_sent,
{
    match event {
        TunnelEvent::Message { len } => {
            guard.commit_message_received(metrics, len);
            TunnelAction::Forward
        },
        TunnelEvent::Failed => TunnelAction::CloseAndStop,
        TunnelEvent::Ended => TunnelAction::Stop,
    }
}

/// One step of the backend-to-client loop: the mirror image, counting sent
/// messages.
pub fn tunnel_server_step(
    guard: &SocketMetricsGuard,
    metrics: &mut SocketMetrics,
    event: TunnelEvent,
) -> (a: TunnelAction)
    requires
        old(metrics).message_sent < u64::MAX,
    ensures
        event matches TunnelEvent::Message { len } ==> a == TunnelAction::Forward && final(metrics).message_sent == old(metrics).message_sent + 1,
        event is Failed ==> a == TunnelAction::CloseAndStop && *final(metrics) == *old(metrics),
        event is Ended ==> a == TunnelAction::Stop && *final(metrics) == *old(metrics),
        final(metrics).clients == old(metrics).clients,
        final(metrics).message_received == old(metrics).message_received,
{
    match event {
        TunnelEvent::Message { len } => {
            guard.commit_message_sent(metrics, len);
            TunnelAction::Forward
        },
        TunnelEvent::Failed => TunnelAction::CloseAndStop,
        TunnelEvent::Ended => TunnelAction::Stop,
    }
}

} // verus!
