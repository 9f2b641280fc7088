//! Names of the container labels and request headers the gateway consumes.

use vstd::prelude::*;

verus! {

/// Container label carrying the logical service name used as the discovery
/// filter.
pub const DOCKER_LABEL_DOCKER_COMPOSE_SERVICE: &'static str = "com.docker.compose.service";

/// Container label overriding the host IP of host-mode backends.
pub const DOCKER_LABEL_GATEWAY_HOST_IP: &'static str = "com.gateway.host.ip";

/// Container label selecting host or bridge networking for the backend.
pub const DOCKER_LABEL_GATEWAY_MODE: &'static str = "com.gateway.mode";

/// Container label asking the watcher to attach the container to every
/// bridge network.
pub const DOCKER_LABEL_GATEWAY_CONNECT_NETWORK: &'static str = "com.gateway.connect.network";

/// Request header carrying the endpoint affinity tag.
pub const GATEWAY_HEADER_EXT: &'static str = "X-GATEWAY-EXT";

/// Query parameter carrying the endpoint affinity tag.
pub const GATEWAY_QUERY_EXT: &'static str = "x-gateway-ext";

/// Request header carrying the tenant id for rate limiting.
pub const GATEWAY_APPID: &'static str = "X-GATEWAY-APPID";

/// Supervisor key of the container watcher background task.
pub const DOCKER_BACKGROUND_SERVICE_NAME: &'static str = "docker_background_service";

} // verus!
