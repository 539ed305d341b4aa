//! The process-wide runtime settings, as plain values.

use vstd::prelude::*;

verus! {

/// One upstream permission endpoint.
#[derive(Debug, Clone)]
pub struct PermUri {
    pub uri: String,
}

/// One configured token issuer.
#[derive(Debug, Clone)]
pub struct AuthSource {
    pub name: String,
    pub token_type: String,
    pub issuer: String,
    pub audience: String,
    pub public_key: String,
}

/// The WebSocket limits handed to the frame codec.
#[derive(Debug, Clone, Copy)]
pub struct WebsocketConfig {
    pub write_buffer_size: usize,
    pub max_write_buffer_size: usize,
    pub max_message_size: Option<usize>,
    pub max_frame_size: Option<usize>,
    pub accept_unmasked_frames: bool,
}

/// The runtime configuration file, already parsed into plain values.
#[derive(Debug, Clone)]
pub struct RuntimeConfig {
    pub bind_to: String,
    pub crd_label: String,
    pub metrics_prefix: String,
    pub perm_uris: Vec<PermUri>,
    pub perm_update_delay: u64,
    pub auth_sources: Vec<AuthSource>,
    pub max_fetch_error_count: u64,
    pub write_buffer_size: usize,
    pub max_write_buffer_size: usize,
    pub max_message_size: usize,
    pub max_frame_size: usize,
    pub accept_unmasked_frames: bool,
    pub crds_namespaces: Option<Vec<String>>,
}

impl RuntimeConfig {
    /// An invalid write-buffer bound is ignored: the cap must exceed the
    /// write buffer size, and is opened wide when it does not.
    pub fn sanitize(&mut self)
        ensures
            old(self).max_write_buffer_size <= old(self).write_buffer_size ==> final(self).max_write_buffer_size == usize::MAX,
            old(self).max_write_buffer_size > old(self).write_buffer_size ==> final(self).max_write_buffer_size == old(self).max_write_buffer_size,
            final(self).write_buffer_size == old(self).write_buffer_size,
            final(self).max_message_size == old(self).max_message_size,
            final(self).max_frame_size == old(self).max_frame_size,
            final(self).accept_unmasked_frames == old(self).accept_unmasked_frames,
            final(self).bind_to == old(self).bind_to,
            final(self).crd_label == old(self).crd_label,
            final(self).metrics_prefix == old(self).metrics_prefix,
            final(self).perm_uris == old(self).perm_uris,
            final(self).perm_update_delay == old(self).perm_update_delay,
            final(self).auth_sources == old(self).auth_sources,
            final(self).max_fetch_error_count == old(self).max_fetch_error_count,
            final(self).crds_namespaces == old(self).crds_namespaces,
    {
        if self.max_write_buffer_size <= self.write_buffer_size {
            self.max_write_buffer_size = usize::MAX;
        }
    }

    /// The WebSocket limits for the frame codec, sizes made optional the way
    /// the codec takes them.
    pub fn get_websocket_config(&self) -> (r: WebsocketConfig)
        ensures
            r.write_buffer_size == self.write_buffer_size,
            r.max_write_buffer_size == self.max_write_buffer_size,
            r.max_message_size == Some(self.max_message_size),
            r.max_frame_size == Some(self.max_frame_size),
            r.accept_unmasked_frames == self.accept_unmasked_frames,
    {
        WebsocketConfig {
            write_buffer_size: self.write_buffer_size,
            max_write_buffer_size: self.max_write_buffer_size,
            max_message_size: Some(self.max_message_size),
            max_frame_size: Some(self.max_frame_size),
            accept_unmasked_frames: self.accept_unmasked_frames,
        }
    }
}

} // verus!
