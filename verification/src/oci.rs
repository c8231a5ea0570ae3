//! The container engine the runner drives: Docker or Podman, as selected
//! on the command line or through the environment.

use vstd::prelude::*;

verus! {

/// The container engine used for pulls, inspections and the build daemon.
#[derive(Debug, Clone, Copy, PartialEq, Eq, Structural)]
pub enum OciBackend {
    Docker,
    Podman,
}

/// The engine's command name.
pub open spec fn spec_backend_str(b: OciBackend) -> Seq<char> {
    match b {
        OciBackend::Docker => "docker"@,
        OciBackend::Podman => "podman"@,
    }
}

impl OciBackend {
    /// The command name the engine is invoked by.
    pub fn as_str(&self) -> (r: &'static str)
        ensures
            r@ == spec_backend_str(*self),
    {
        match self {
            OciBackend::Docker => "docker",
            OciBackend::Podman => "podman",
        }
    }
}

/// The engine choice as it appears on the command line; Docker is the
/// default.
#[derive(Debug, Clone, Copy, PartialEq, Eq, Structural)]
pub enum OciBackendClap {
    Docker,
    Podman,
}

impl Default for OciBackendClap {
    fn default() -> (r: Self)
        ensures
            r == OciBackendClap::Docker,
    {
        OciBackendClap::Docker
    }
}

impl OciBackendClap {
    /// The name shown for this choice.
    pub fn as_str(&self) -> (r: &'static str)
        ensures
            (*self is Docker ==> r@ == "docker"@) && (*self is Podman ==> r@ == "podman"@),
    {
        match self {
            OciBackendClap::Docker => "docker",
            OciBackendClap::Podman => "podman",
        }
    }
}

impl From<OciBackendClap> for OciBackend {
    fn from(backend: OciBackendClap) -> (r: Self) {
        match backend {
            OciBackendClap::Docker => OciBackend::Docker,
            OciBackendClap::Podman => OciBackend::Podman,
        }
    }
}

impl vstd::std_specs::convert::FromSpecImpl<OciBackendClap> for OciBackend {
    open spec fn obeys_from_spec() -> bool {
        true
    }

    open spec fn from_spec(backend: OciBackendClap) -> Self {
        match backend {
            OciBackendClap::Docker => OciBackend::Docker,
            OciBackendClap::Podman => OciBackend::Podman,
        }
    }
}

/// The engine arguments parsed from the command line.
#[derive(Debug, Clone, Copy, PartialEq, Eq, Structural)]
pub struct OciArgs {
    pub oci_backend: OciBackendClap,
}

impl OciArgs {
    /// The engine these arguments select.
    pub fn oci_backend(self) -> (r: OciBackend)
        ensures
            self.oci_backend is Docker ==> r == OciBackend::Docker,
            self.oci_backend is Podman ==> r == OciBackend::Podman,
    {
        OciBackend::from(self.oci_backend)
    }
}

} // verus!
