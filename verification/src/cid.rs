//! The vsock context that the proxy listens on.
use vstd::prelude::*;
use vstd::std_specs::convert::{FromSpec, FromSpecImpl};

verus! {

/// Vsock Context ID options for binding
///
/// The CID (Context ID) identifies the communication endpoint in the vsock namespace.
/// On the host, only three CID values are valid:
/// - CID=0: Wildcard - binds to all local contexts
/// - CID=1: Local loopback within the same context
/// - CID=2: The host's fixed identity
///
/// Guest VMs are assigned CIDs >= 3 by the hypervisor.
#[derive(Debug, Clone, Copy, PartialEq, Eq, Structural)]
pub enum VsockCid {
    /// Wildcard - binds to all local contexts (CID=0)
    Any,
    /// Local loopback within the same context (CID=1)
    Local,
    /// The host's fixed identity in vsock namespace (CID=2)
    Host,
}

/// Reads `vsock::VMADDR_CID_LOCAL`. Trusted: the constant is 1.
#[verifier::external_body]
fn local_cid() -> (cid: u32)
    ensures
        cid == 1,
{
    vsock::VMADDR_CID_LOCAL
}

/// Reads `vsock::VMADDR_CID_HOST`. Trusted: the constant is 2.
#[verifier::external_body]
fn host_cid() -> (cid: u32)
    ensures
        cid == 2,
{
    vsock::VMADDR_CID_HOST
}

impl From<VsockCid> for u32 {
    fn from(cid: VsockCid) -> (number: u32) {
        match cid {
            VsockCid::Any => 0,
            VsockCid::Local => local_cid(),
            VsockCid::Host => host_cid(),
        }
    }
}

impl FromSpecImpl<VsockCid> for u32 {
    open spec fn obeys_from_spec() -> bool {
        true
    }

    open spec fn from_spec(cid: VsockCid) -> u32 {
        match cid {
            VsockCid::Any => 0,
            VsockCid::Local => 1,
            VsockCid::Host => 2,
        }
    }
}

/// The wildcard is context 0, the loopback context 1 and the host context 2.
pub proof fn lemma_cid_numbers()
    ensures
        <u32 as FromSpec<VsockCid>>::from_spec(VsockCid::Any) == 0,
        <u32 as FromSpec<VsockCid>>::from_spec(VsockCid::Local) == 1,
        <u32 as FromSpec<VsockCid>>::from_spec(VsockCid::Host) == 2,
{
}

/// The contexts have different numbers, and none that a guest can be assigned.
pub proof fn lemma_cids_are_no_guests(a: VsockCid, b: VsockCid)
    ensures
        <u32 as FromSpec<VsockCid>>::from_spec(a) < 3,
        <u32 as FromSpec<VsockCid>>::from_spec(a) == <u32 as FromSpec<VsockCid>>::from_spec(b) ==> a
            == b,
{
}

impl VsockCid {
    /// The name and the number of the context, as a person reads them.
    pub fn describe(&self) -> (text: String)
        ensures
            text@ == (match *self {
                VsockCid::Any => "any (CID=0)"@,
                VsockCid::Local => "local (CID=1)"@,
                VsockCid::Host => "host (CID=2)"@,
            }),
    {
        match self {
            VsockCid::Any => "any (CID=0)".to_owned(),
            VsockCid::Local => "local (CID=1)".to_owned(),
            VsockCid::Host => "host (CID=2)".to_owned(),
        }
    }
}

} // verus!
