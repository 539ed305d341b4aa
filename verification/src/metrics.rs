//! Metrics bookkeeping. The collectors themselves are floating-point
//! histograms and live with the process outside the library; here the
//! commits are data, so that every response is paired with exactly one
//! commit carrying its labels, and the socket gauge balances.

use vstd::prelude::*;
use vstd::string::StringExecFns;

verus! {

/// Which metric family a name belongs to.
#[derive(Debug, Clone, Copy)]
pub enum Protocol {
    Http,
    Socket,
}

impl Protocol {
    /// The family's name infix.
    pub fn as_str(&self) -> (r: &'static str)
        ensures
            self is Http ==> r@ == "http"@,
            self is Socket ==> r@ == "socket"@,
    {
        match self {
            Protocol::Http => "http",
            Protocol::Socket => "socket",
        }
    }
}

/// `"gateway_{prefix}_{protocol}_{name}"`.
pub open spec fn spec_metric_name(prefix: Seq<char>, protocol: Seq<char>, name: Seq<char>) -> Seq<
    char,
> {
    "gateway_"@ + prefix + "_"@ + protocol + "_"@ + name
}

/// The full name of one metric.
pub fn get_metric_name(prefix: &str, name: &str, protocol: Protocol) -> (r: String)
    ensures
        protocol is Http ==> r@ == spec_metric_name(prefix@, "http"@, name@),
        protocol is Socket ==> r@ == spec_metric_name(prefix@, "socket"@, name@),
{
    let mut out = "gateway_".to_owned();
    out.append(prefix);
    out.append("_");
    out.append(protocol.as_str());
    out.append("_");
    out.append(name);
    out
}

/// One committed HTTP observation: the labels of the response it belongs to.
#[derive(Debug, Clone)]
pub struct HttpCommit {
    pub app: String,
    pub method: String,
    pub status_code: u16,
}

/// The labels committed when a forwarded request comes back with the
/// backend's status.
pub fn commit_http_metrics(app: &str, method: &str, status_code: u16) -> (c: HttpCommit)
    ensures
        c.app@ == app@,
        c.method@ == method@,
        c.status_code == status_code,
{
    HttpCommit { app: app.to_owned(), method: method.to_owned(), status_code }
}

/// The per-app socket counters: simultaneously open tunnels and messages
/// carried each way.
#[derive(Debug, Clone, Copy)]
pub struct SocketMetrics {
    pub clients: u64,
    pub message_sent: u64,
    pub message_received: u64,
}

/// Accounts for one tunnel: opening it raises the clients gauge by one, and
/// closing it lowers the gauge by one, whatever was committed in between.
#[derive(Debug)]
pub struct SocketMetricsGuard {
    pub app: String,
}

impl SocketMetricsGuard {
    /// Opens the guard: one more open tunnel.
    pub fn new(app: &str, metrics: &mut SocketMetrics) -> (g: SocketMetricsGuard)
        requires
            old(metrics).clients < u64::MAX,
        ensures
            final(metrics).clients == old(metrics).clients + 1,
            final(metrics).message_sent == old(metrics).message_sent,
            final(metrics).message_received == old(metrics).message_received,
            g.app@ == app@,
    {
        metrics.clients = metrics.clients + 1;
        SocketMetricsGuard { app: app.to_owned() }
    }

    /// One message forwarded to the client.
    pub fn commit_message_sent(&self, metrics: &mut SocketMetrics, size: usize)
        requires
            old(metrics).message_sent < u64::MAX,
        ensures
            final(metrics).message_sent == old(metrics).message_sent + 1,
            final(metrics).clients == old(metrics).clients,
            final(metrics).message_received == old(metrics).message_received,
    {
        metrics.message_sent = metrics.message_sent + 1;
    }

    /// One message received from the client.
    pub fn commit_message_received(&self, metrics: &mut SocketMetrics, size: usize)
        requires
            old(metrics).message_received < u64::MAX,
        ensures
            final(metrics).message_received == old(metrics).message_received + 1,
            final(metrics).clients == old(metrics).clients,
            final(metrics).message_sent == old(metrics).message_sent,
    {
        metrics.message_received = metrics.message_received + 1;
    }

    /// Closes the guard on any exit path: one less open tunnel.
    pub fn close(self, metrics: &mut SocketMetrics)
        requires
            old(metrics).clients >= 1,
        ensures
            final(metrics).clients == old(metrics).clients - 1,
            final(metrics).message_sent == old(metrics).message_sent,
            final(metrics).message_received == old(metrics).message_received,
    {
        metrics.clients = metrics.clients - 1;
    }
}

/// For every tunnel that opens, the clients gauge returns to its pre-open
/// value once the tunnel ends: opening raises it by one, message commits
/// leave it alone, and closing lowers it by one.
pub proof fn lemma_socket_gauge_balanced(
    before: SocketMetrics,
    opened: SocketMetrics,
    served: SocketMetrics,
    closed: SocketMetrics,
)
    requires
        opened.clients == before.clients + 1,
        served.clients == opened.clients,
        closed.clients == served.clients - 1,
    ensures
        closed.clients == before.clients,
{
}

} // verus!
