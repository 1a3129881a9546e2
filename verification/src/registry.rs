//! The session registry: the sessions of the bridge, one for each
//! authenticator, by the authenticator's address.
//!
//! A session is made when a paired device that offers the FIDO service is
//! seen and has none yet; it is unmade when the device goes away, or when
//! the session ends itself on the loss of a transport.

use std::collections::HashMap;
use vstd::prelude::*;
use crate::cmd::CTapBLEError;
use crate::session::machine::BridgeSession;
use crate::session::machine::Emitted;
use crate::session::machine::Event;
use crate::session::model::rendering;
use crate::session::model::SessionConfig;
use crate::session::model::SessionModel;

verus! {

broadcast use vstd::std_specs::hash::group_hash_axioms;

/// The FIDO service, `0000fffd-0000-1000-8000-00805f9b34fb`, as a number.
pub const FIDO_SERVICE_UUID: u128 = 0x0000fffd_0000_1000_8000_00805f9b34fb;

/// What discovery tells of a device.
#[derive(Debug)]
pub struct Device {
    /// The device's address, as a number.
    pub address: u64,
    /// Whether the device is paired.
    pub paired: bool,
    /// The services that the device lists.
    pub uuids: Vec<u128>,
    /// The services for which the device advertises service data.
    pub service_data: Vec<u128>,
}

impl Device {
    /// Whether the device is a paired authenticator: the FIDO service is
    /// among its services, or among those it advertises data for.
    pub open spec fn qualifies(&self) -> bool {
        self.paired && (self.uuids@.contains(FIDO_SERVICE_UUID) || self.service_data@.contains(
            FIDO_SERVICE_UUID,
        ))
    }

    /// Exec form of [`Device::qualifies`].
    pub fn is_authenticator(&self) -> (b: bool)
        ensures
            b == self.qualifies(),
    {
        self.paired && (holds(&self.uuids, FIDO_SERVICE_UUID) || holds(
            &self.service_data,
            FIDO_SERVICE_UUID,
        ))
    }
}

/// The sessions after a device was seen: a paired authenticator without a
/// session gets a new one, made with `config`; nothing else changes.
pub open spec fn register(
    sessions: Map<u64, SessionModel>,
    device: Device,
    config: SessionConfig,
) -> Map<u64, SessionModel> {
    if device.qualifies() && !sessions.contains_key(device.address) {
        sessions.insert(device.address, SessionModel::initial(config))
    } else {
        sessions
    }
}

/// Seeing a device twice is seeing it once, a device that has a session
/// keeps it as it is, and a device that went away has none, however often
/// it went.
pub proof fn lemma_register_idempotent(
    sessions: Map<u64, SessionModel>,
    device: Device,
    config: SessionConfig,
)
    ensures
        register(register(sessions, device, config), device, config) == register(
            sessions,
            device,
            config,
        ),
        sessions.contains_key(device.address) ==> register(sessions, device, config) == sessions,
        device.qualifies() ==> register(sessions, device, config).contains_key(device.address),
        !register(sessions, device, config).remove(device.address).contains_key(device.address),
        sessions.remove(device.address).remove(device.address) == sessions.remove(device.address),
{
    assert(sessions.remove(device.address).remove(device.address) =~= sessions.remove(
        device.address,
    ));
}

/// Whether `uuid` is in `list`.
pub fn holds(list: &Vec<u128>, uuid: u128) -> (b: bool)
    ensures
        b == list@.contains(uuid),
{
    let mut i: usize = 0;
    while i < list.len()
        invariant
            i <= list@.len(),
            forall|j: int| 0 <= j < i ==> list@[j] != uuid,
        decreases list@.len() - i,
    {
        if list[i] == uuid {
            return true;
        }
        i += 1;
    }
    false
}

/// The registry.
#[derive(Debug)]
pub struct Driver {
    config: SessionConfig,
    instances: HashMap<u64, BridgeSession>,
}

impl View for Driver {
    type V = Map<u64, SessionModel>;

    closed spec fn view(&self) -> Map<u64, SessionModel> {
        Map::new(
            |address: u64| self.instances@.contains_key(address),
            |address: u64| self.instances@[address]@,
        )
    }
}

impl Driver {
    /// Validity of the representation.
    pub closed spec fn wf(&self) -> bool {
        &&& self.config.valid()
        &&& forall|address: u64| #[trigger]
            self.instances@.contains_key(address) ==> self.instances@[address].wf()
                && self.instances@[address]@.config.valid()
    }

    /// The settings with which sessions are made.
    pub closed spec fn settings(&self) -> SessionConfig {
        self.config
    }

    /// A registry holds finitely many sessions, so that their number is a
    /// number.
    pub proof fn lemma_finite(&self)
        ensures
            self@.dom().finite(),
    {
        assert(self@.dom() =~= self.instances@.dom());
    }

    /// Every session of a valid registry satisfies the invariant of its
    /// model.
    pub proof fn lemma_wf(&self, address: u64)
        requires
            self.wf(),
            self@.contains_key(address),
        ensures
            self@[address].inv(),
            self.settings().valid(),
            self@.dom().finite(),
    {
        self.instances@[address].lemma_wf();
        self.lemma_finite();
    }

    /// A registry without sessions, which makes them with the standard
    /// settings.
    pub fn new() -> (d: Driver)
        ensures
            d.wf(),
            d@ == Map::<u64, SessionModel>::empty(),
            d@.dom().finite(),
            d.settings() == SessionConfig::standard(),
    {
        let d = Driver { config: SessionConfig::standard_settings(), instances: HashMap::new() };
        assert(d@ =~= Map::<u64, SessionModel>::empty());
        d
    }

    /// A registry without sessions, which makes them with the settings
    /// `config`. Settings that are not valid are refused with `InvalidPAR`.
    pub fn with_config(config: SessionConfig) -> (r: Result<Driver, CTapBLEError>)
        ensures
            match r {
                Ok(d) => config.valid() && d.wf() && d@ == Map::<u64, SessionModel>::empty()
                    && d@.dom().finite() && d.settings() == config,
                Err(e) => !config.valid() && e == CTapBLEError::InvalidPAR,
            },
    {
        if !config.is_valid() {
            return Err(CTapBLEError::InvalidPAR);
        }
        let d = Driver { config, instances: HashMap::new() };
        assert(d@ =~= Map::<u64, SessionModel>::empty());
        Ok(d)
    }

    /// Number of sessions.
    pub fn len(&self) -> (n: usize)
        ensures
            n == self@.dom().len(),
            self@.dom().finite(),
    {
        assert(self@.dom() =~= self.instances@.dom());
        self.instances.len()
    }

    /// Whether the device at `address` has a session.
    pub fn lookup(&self, address: u64) -> (b: bool)
        ensures
            b == self@.contains_key(address),
    {
        self.instances.contains_key(&address)
    }

    /// Whether the session of the device at `address` has a command in
    /// flight, so that ticks are to be delivered to it.
    pub fn is_waiting(&self, address: u64) -> (b: bool)
        ensures
            b == (self@.contains_key(address) && self@[address].state is Busy),
    {
        match self.instances.get(&address) {
            Some(session) => session.is_waiting(),
            None => false,
        }
    }

    /// Takes note of a device: a session is made for it if it is a paired
    /// authenticator and has none. Returns whether one was made.
    pub fn handle_device(&mut self, device: &Device) -> (made: bool)
        requires
            old(self).wf(),
        ensures
            final(self).wf(),
            final(self).settings() == old(self).settings(),
            made == (device.qualifies() && !old(self)@.contains_key(device.address)),
            final(self)@ == register(old(self)@, *device, old(self).settings()),
            final(self)@.dom().finite(),
            final(self)@.dom().len() == old(self)@.dom().len() + (if made {
                1int
            } else {
                0int
            }),
    {
        proof {
            old(self).lemma_finite();
        }
        if !device.is_authenticator() || self.instances.contains_key(&device.address) {
            return false;
        }
        match BridgeSession::new(self.config) {
            Ok(session) => {
                self.instances.insert(device.address, session);
                assert(self@ =~= old(self)@.insert(
                    device.address,
                    SessionModel::initial(self.config),
                ));
                assert(self@.dom() =~= old(self)@.dom().insert(device.address));
                true
            },
            Err(_) => false,
        }
    }

    /// Unmakes the session of the device at `address`. Returns whether
    /// there was one.
    pub fn unregister_device(&mut self, address: u64) -> (found: bool)
        requires
            old(self).wf(),
        ensures
            final(self).wf(),
            final(self).settings() == old(self).settings(),
            found == old(self)@.contains_key(address),
            final(self)@ == old(self)@.remove(address),
            final(self)@.dom().finite(),
            final(self)@.dom().len() == old(self)@.dom().len() - (if found {
                1int
            } else {
                0int
            }),
    {
        proof {
            old(self).lemma_finite();
        }
        let found: bool = self.instances.remove(&address).is_some();
        assert(self@ =~= old(self)@.remove(address));
        assert(self@.dom() =~= old(self)@.dom().remove(address));
        found
    }

    /// Tells the session of the device at `address` the fragment size that
    /// the device names. Returns whether there is such a session and the
    /// size has room for payload.
    pub fn set_fragment_len(&mut self, address: u64, len: usize) -> (taken: bool)
        requires
            old(self).wf(),
        ensures
            final(self).wf(),
            final(self).settings() == old(self).settings(),
            taken == (old(self)@.contains_key(address) && len >= 4),
            final(self)@ == (if old(self)@.contains_key(address) {
                old(self)@.insert(address, old(self)@[address].with_fragment_len(len))
            } else {
                old(self)@
            }),
            final(self)@.dom().finite(),
            final(self)@.dom() == old(self)@.dom(),
    {
        proof {
            old(self).lemma_finite();
        }
        match self.instances.remove(&address) {
            None => {
                assert(self@ =~= old(self)@);
                false
            },
            Some(session) => {
                let mut session = session;
                let taken: bool = session.set_fragment_len(len);
                self.instances.insert(address, session);
                assert(self@ =~= old(self)@.insert(
                    address,
                    old(self)@[address].with_fragment_len(len),
                ));
                assert(self@.dom() =~= old(self)@.dom());
                taken
            },
        }
    }

    /// Delivers an event to the session of the device at `address` and
    /// gives the frames of the reply; `None` if the device has no session.
    /// A session that has ended is unmade.
    pub fn deliver(&mut self, address: u64, event: &Event) -> (r: Option<Emitted>)
        requires
            old(self).wf(),
        ensures
            final(self).wf(),
            final(self).settings() == old(self).settings(),
            match r {
                None => !old(self)@.contains_key(address) && final(self)@ == old(self)@,
                Some(out) => {
                    let before = old(self)@[address];
                    let (after, reply) = before.step(event@);
                    &&& old(self)@.contains_key(address)
                    &&& out@ == rendering(before.config, reply)
                    &&& final(self)@ == (if reply.closed {
                        old(self)@.remove(address)
                    } else {
                        old(self)@.insert(address, after)
                    })
                    &&& final(self)@.dom().len() == old(self)@.dom().len() - (if reply.closed {
                        1int
                    } else {
                        0int
                    })
                },
            },
            final(self)@.dom().finite(),
    {
        proof {
            old(self).lemma_finite();
        }
        match self.instances.remove(&address) {
            None => {
                assert(self@ =~= old(self)@);
                None
            },
            Some(session) => {
                let mut session = session;
                proof {
                    session.lemma_wf();
                    crate::session::laws::lemma_step_sound(session@, event@);
                }
                let out: Emitted = session.step(event);
                if out.closed {
                    assert(self@ =~= old(self)@.remove(address));
                    assert(self@.dom() =~= old(self)@.dom().remove(address));
                } else {
                    self.instances.insert(address, session);
                    assert(self@ =~= old(self)@.insert(
                        address,
                        old(self)@[address].step(event@).0,
                    ));
                    assert(self@.dom() =~= old(self)@.dom());
                }
                Some(out)
            },
        }
    }
}

} // verus!
