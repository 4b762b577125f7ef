//! What a component holds once bootstrapped: the grants and Casper
//! channels its bundle delivered, each claimed by the component at most
//! once, beside the channel back to the broker.

use vstd::prelude::*;
use crate::bundle::{Bundle, BundleView, CasperChannel, CasperChannelView, Grant, GrantView, Role};

verus! {

/// A bootstrapped component's startup state: the still-unclaimed part of
/// its bundle, and the channel back to the broker, kept for the rest of
/// the component's life.
pub struct Startup<D, C> {
    bundle: Bundle<D>,
    pub bootstrap: C,
}

/// The index of the first grant playing `role` on `interface`.
pub open spec fn first_grant<D>(gs: Seq<GrantView<D>>, role: Role, interface: Seq<char>) -> Option<int>
    decreases gs.len(),
{
    if gs.len() == 0 {
        None
    } else if gs[0].role == role && gs[0].interface == interface {
        Some(0)
    } else {
        match first_grant(gs.drop_first(), role, interface) {
            Some(i) => Some(i + 1),
            None => None,
        }
    }
}

/// The index of the first Casper channel opened to `service`.
pub open spec fn first_channel<D>(cs: Seq<CasperChannelView<D>>, service: Seq<char>) -> Option<int>
    decreases cs.len(),
{
    if cs.len() == 0 {
        None
    } else if cs[0].service == service {
        Some(0)
    } else {
        match first_channel(cs.drop_first(), service) {
            Some(i) => Some(i + 1),
            None => None,
        }
    }
}

proof fn lemma_first_grant_at<D>(gs: Seq<GrantView<D>>, role: Role, interface: Seq<char>, i: int)
    requires
        0 <= i <= gs.len(),
        forall|j: int|
            0 <= j < i ==> !((#[trigger] gs[j]).role == role && gs[j].interface == interface),
        i == gs.len() || (gs[i].role == role && gs[i].interface == interface),
    ensures
        first_grant(gs, role, interface) == (if i < gs.len() {
            Some(i)
        } else {
            None::<int>
        }),
    decreases gs.len(),
{
    if gs.len() > 0 && i > 0 {
        let t = gs.drop_first();
        assert forall|j: int| 0 <= j < i - 1 implies !((#[trigger] t[j]).role == role && t[j].interface
            == interface) by {
            assert(t[j] == gs[j + 1]);
        }
        if i < gs.len() {
            assert(t[i - 1] == gs[i]);
        }
        lemma_first_grant_at(t, role, interface, i - 1);
    }
}

proof fn lemma_first_channel_at<D>(cs: Seq<CasperChannelView<D>>, service: Seq<char>, i: int)
    requires
        0 <= i <= cs.len(),
        forall|j: int| 0 <= j < i ==> (#[trigger] cs[j]).service != service,
        i == cs.len() || cs[i].service == service,
    ensures
        first_channel(cs, service) == (if i < cs.len() {
            Some(i)
        } else {
            None::<int>
        }),
    decreases cs.len(),
{
    if cs.len() > 0 && i > 0 {
        let t = cs.drop_first();
        assert forall|j: int| 0 <= j < i - 1 implies (#[trigger] t[j]).service != service by {
            assert(t[j] == cs[j + 1]);
        }
        if i < cs.len() {
            assert(t[i - 1] == cs[i]);
        }
        lemma_first_channel_at(t, service, i - 1);
    }
}

impl<D, C> Startup<D, C> {
    /// The unclaimed part of the bundle.
    pub closed spec fn unclaimed(&self) -> BundleView<D> {
        self.bundle@
    }

    /// The channel back to the broker.
    pub closed spec fn broker_channel(&self) -> C {
        self.bootstrap
    }

    /// A component's startup state, from the bundle it received and the
    /// channel it received it on.
    pub fn new(bundle: Bundle<D>, bootstrap: C) -> (s: Startup<D, C>)
        ensures
            s.unclaimed() == bundle@,
            s.broker_channel() == bootstrap,
    {
        Startup { bundle, bootstrap }
    }

    /// The grants still unclaimed.
    pub fn grants(&self) -> (g: &[Grant<D>])
        ensures
            g@.map_values(|x: Grant<D>| x@) == self.unclaimed().grants,
    {
        self.bundle.grants.as_slice()
    }

    /// The Casper channels still unclaimed.
    pub fn casper_channels(&self) -> (c: &[CasperChannel<D>])
        ensures
            c@.map_values(|x: CasperChannel<D>| x@) == self.unclaimed().casper_channels,
    {
        self.bundle.casper_channels.as_slice()
    }

    /// Claim the first grant playing `role` on `interface`, removing it, so
    /// it is claimed exactly once; `None` if no unclaimed grant matches.
    fn take_grant(&mut self, role: Role, interface: &str) -> (r: Option<Grant<D>>)
        ensures
            final(self).broker_channel() == old(self).broker_channel(),
            final(self).unclaimed().casper_channels == old(self).unclaimed().casper_channels,
            match first_grant(old(self).unclaimed().grants, role, interface@) {
                Some(i) => r matches Some(g) && g@ == old(self).unclaimed().grants[i]
                    && final(self).unclaimed().grants == old(self).unclaimed().grants.remove(i),
                None => r is None && final(self).unclaimed() == old(self).unclaimed(),
            },
    {
        let ghost gs = self.bundle@.grants;
        let mut i: usize = 0;
        while i < self.bundle.grants.len()
            invariant
                i <= self.bundle.grants@.len(),
                *self == *old(self),
                gs == self.bundle@.grants,
                gs.len() == self.bundle.grants@.len(),
                forall|j: int|
                    0 <= j < i ==> !((#[trigger] gs[j]).role == role && gs[j].interface == interface@),
            decreases self.bundle.grants@.len() - i,
        {
            let g = &self.bundle.grants[i];
            assert(gs[i as int] == g@);
            if g.role == role && crate::text::eq_str(crate::text::chars_of(g.interface.as_str()).as_slice(), interface) {
                proof {
                    lemma_first_grant_at(gs, role, interface@, i as int);
                }
                let ghost before = self.bundle.grants@;
                let taken = self.bundle.grants.remove(i);
                assert(self.bundle.grants@.map_values(|x: Grant<D>| x@) =~= before.map_values(
                    |x: Grant<D>| x@,
                ).remove(i as int));
                return Some(taken);
            }
            i = i + 1;
        }
        proof {
            lemma_first_grant_at(gs, role, interface@, i as int);
        }
        None
    }

    /// Claim the client grant for `interface`, the ring's send end; it is
    /// removed, so it is claimed exactly once.
    pub fn take_client_grant(&mut self, interface: &str) -> (r: Option<Grant<D>>)
        ensures
            final(self).broker_channel() == old(self).broker_channel(),
            final(self).unclaimed().casper_channels == old(self).unclaimed().casper_channels,
            match first_grant(old(self).unclaimed().grants, Role::Client, interface@) {
                Some(i) => r matches Some(g) && g@ == old(self).unclaimed().grants[i]
                    && final(self).unclaimed().grants == old(self).unclaimed().grants.remove(i),
                None => r is None && final(self).unclaimed() == old(self).unclaimed(),
            },
    {
        self.take_grant(Role::Client, interface)
    }

    /// Claim the server grant for `interface`, the service end of a ring;
    /// it is removed, so it is claimed exactly once.
    pub fn take_server_grant(&mut self, interface: &str) -> (r: Option<Grant<D>>)
        ensures
            final(self).broker_channel() == old(self).broker_channel(),
            final(self).unclaimed().casper_channels == old(self).unclaimed().casper_channels,
            match first_grant(old(self).unclaimed().grants, Role::Server, interface@) {
                Some(i) => r matches Some(g) && g@ == old(self).unclaimed().grants[i]
                    && final(self).unclaimed().grants == old(self).unclaimed().grants.remove(i),
                None => r is None && final(self).unclaimed() == old(self).unclaimed(),
            },
    {
        self.take_grant(Role::Server, interface)
    }

    /// Claim the Casper channel for `service`; it is removed, so it is
    /// claimed exactly once, and `None` if none for `service` is left.
    pub fn take_casper_channel(&mut self, service: &str) -> (r: Option<CasperChannel<D>>)
        ensures
            final(self).broker_channel() == old(self).broker_channel(),
            final(self).unclaimed().grants == old(self).unclaimed().grants,
            match first_channel(old(self).unclaimed().casper_channels, service@) {
                Some(i) => r matches Some(c) && c@ == old(self).unclaimed().casper_channels[i]
                    && final(self).unclaimed().casper_channels == old(
                    self,
                ).unclaimed().casper_channels.remove(i),
                None => r is None && final(self).unclaimed() == old(self).unclaimed(),
            },
    {
        let ghost cs = self.bundle@.casper_channels;
        let mut i: usize = 0;
        while i < self.bundle.casper_channels.len()
            invariant
                i <= self.bundle.casper_channels@.len(),
                *self == *old(self),
                cs == self.bundle@.casper_channels,
                cs.len() == self.bundle.casper_channels@.len(),
                forall|j: int| 0 <= j < i ==> (#[trigger] cs[j]).service != service@,
            decreases self.bundle.casper_channels@.len() - i,
        {
            let c = &self.bundle.casper_channels[i];
            assert(cs[i as int] == c@);
            if crate::text::eq_str(crate::text::chars_of(c.service.as_str()).as_slice(), service) {
                proof {
                    lemma_first_channel_at(cs, service@, i as int);
                }
                let ghost before = self.bundle.casper_channels@;
                let taken = self.bundle.casper_channels.remove(i);
                assert(self.bundle.casper_channels@.map_values(|x: CasperChannel<D>| x@) =~= before.map_values(
                    |x: CasperChannel<D>| x@,
                ).remove(i as int));
                return Some(taken);
            }
            i = i + 1;
        }
        proof {
            lemma_first_channel_at(cs, service@, i as int);
        }
        None
    }
}

/// A claim is made at most once: once the only channel opened to a
/// service is claimed, no channel for that service is left to claim.
pub proof fn lemma_claimed_once<D>(cs: Seq<CasperChannelView<D>>, service: Seq<char>, i: int)
    requires
        0 <= i < cs.len(),
        cs[i].service == service,
        forall|j: int| 0 <= j < cs.len() && j != i ==> (#[trigger] cs[j]).service != service,
    ensures
        first_channel(cs.remove(i), service) is None,
{
    let rest = cs.remove(i);
    assert forall|j: int| 0 <= j < rest.len() implies (#[trigger] rest[j]).service != service by {
        if j < i {
            assert(rest[j] == cs[j]);
        } else {
            assert(rest[j] == cs[j + 1]);
        }
    }
    lemma_first_channel_at(rest, service, rest.len() as int);
}

} // verus!
