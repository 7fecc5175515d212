//! A back end that only writes down what it is asked to do.

use super::types::{DeviceSpec, PeerSpec, PeerStatus, WgError};
use crate::addr::SocketAddrV6;
use vstd::prelude::*;

verus! {

/// A back end that records the calls made to it.
#[derive(Debug)]
pub struct MockBackend {
    /// The devices applied.
    pub applied: Vec<DeviceSpec>,
    /// The endpoints set: interface, peer and endpoint.
    pub endpoint_updates: Vec<(String, [u8; 32], SocketAddrV6)>,
    /// The peers added, with their interface.
    pub added_peers: Vec<(String, PeerSpec)>,
    /// The peers removed, with their interface.
    pub removed_peers: Vec<(String, [u8; 32])>,
    /// What `status` is to report.
    pub statuses: Vec<PeerStatus>,
}

impl Default for MockBackend {
    fn default() -> (m: Self)
        ensures
            m.applied@.len() == 0,
            m.endpoint_updates@.len() == 0,
            m.added_peers@.len() == 0,
            m.removed_peers@.len() == 0,
            m.statuses@.len() == 0,
    {
        MockBackend {
            applied: Vec::new(),
            endpoint_updates: Vec::new(),
            added_peers: Vec::new(),
            removed_peers: Vec::new(),
            statuses: Vec::new(),
        }
    }
}

impl MockBackend {
    /// Records a device; its name is the configured one.
    pub fn apply(&mut self, spec: &DeviceSpec) -> (r: Result<String, WgError>)
        ensures
            r matches Ok(name) && name@ == spec.interface@,
            final(self).applied@.len() == old(self).applied@.len() + 1,
            final(self).applied@.drop_last() == old(self).applied@,
            final(self).applied@.last()@ == spec@,
            final(self).endpoint_updates == old(self).endpoint_updates,
            final(self).added_peers == old(self).added_peers,
            final(self).removed_peers == old(self).removed_peers,
            final(self).statuses == old(self).statuses,
    {
        self.applied.push(spec.clone());
        assert(self.applied@.drop_last() =~= old(self).applied@);
        Ok(spec.interface.clone())
    }

    /// Reports what it was told to report.
    pub fn status(&self, _interface: &str) -> (r: Result<Vec<PeerStatus>, WgError>)
        ensures
            r matches Ok(statuses) && statuses@ == self.statuses@,
    {
        Ok(vstd::slice::slice_to_vec(self.statuses.as_slice()))
    }

    /// Records that an endpoint was set.
    pub fn set_peer_endpoint(
        &mut self,
        interface: &str,
        wg_public: &[u8; 32],
        endpoint: SocketAddrV6,
    ) -> (r: Result<(), WgError>)
        ensures
            r is Ok,
            final(self).endpoint_updates@.len() == old(self).endpoint_updates@.len() + 1,
            final(self).endpoint_updates@.drop_last() == old(self).endpoint_updates@,
            final(self).endpoint_updates@.last().0@ == interface@,
            final(self).endpoint_updates@.last().1 == *wg_public,
            final(self).endpoint_updates@.last().2 == endpoint,
            final(self).applied == old(self).applied,
            final(self).added_peers == old(self).added_peers,
            final(self).removed_peers == old(self).removed_peers,
            final(self).statuses == old(self).statuses,
    {
        self.endpoint_updates.push((interface.to_owned(), *wg_public, endpoint));
        assert(self.endpoint_updates@.drop_last() =~= old(self).endpoint_updates@);
        Ok(())
    }

    /// Records that a peer was added.
    pub fn add_peer(&mut self, interface: &str, spec: &PeerSpec) -> (r: Result<(), WgError>)
        ensures
            r is Ok,
            final(self).added_peers@.len() == old(self).added_peers@.len() + 1,
            final(self).added_peers@.drop_last() == old(self).added_peers@,
            final(self).added_peers@.last().0@ == interface@,
            final(self).added_peers@.last().1@ == spec@,
            final(self).applied == old(self).applied,
            final(self).endpoint_updates == old(self).endpoint_updates,
            final(self).removed_peers == old(self).removed_peers,
            final(self).statuses == old(self).statuses,
    {
        self.added_peers.push((interface.to_owned(), spec.clone()));
        assert(self.added_peers@.drop_last() =~= old(self).added_peers@);
        Ok(())
    }

    /// Records that a peer was removed.
    pub fn remove_peer(&mut self, interface: &str, wg_public: &[u8; 32]) -> (r: Result<
        (),
        WgError,
    >)
        ensures
            r is Ok,
            final(self).removed_peers@.len() == old(self).removed_peers@.len() + 1,
            final(self).removed_peers@.drop_last() == old(self).removed_peers@,
            final(self).removed_peers@.last().0@ == interface@,
            final(self).removed_peers@.last().1 == *wg_public,
            final(self).applied == old(self).applied,
            final(self).endpoint_updates == old(self).endpoint_updates,
            final(self).added_peers == old(self).added_peers,
            final(self).statuses == old(self).statuses,
    {
        self.removed_peers.push((interface.to_owned(), *wg_public));
        assert(self.removed_peers@.drop_last() =~= old(self).removed_peers@);
        Ok(())
    }

    /// Has no device to take down.
    pub fn down(&self, _interface: &str) -> (r: Result<(), WgError>)
        ensures
            r is Ok,
    {
        Ok(())
    }
}

} // verus!
