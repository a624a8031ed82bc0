//! The configuration of the service: whether it has been set up, in which
//! mode, and for which identity.

use crate::permissions::Principal;
use vstd::prelude::*;

verus! {

/// For whom the service runs.
#[derive(Clone, Copy, Debug, PartialEq, Eq, Structural)]
pub enum Mode {
    /// For a developer: the identity is added to the controllers.
    Developer,
    /// On trial: the identity may commit and nothing else changes.
    Trial,
    /// For a user: the identity and the service itself become the only
    /// controllers.
    User,
}

/// Whether the service has been set up.
#[derive(Clone, Copy, Debug, PartialEq, Eq, Structural)]
pub enum Status {
    /// Not yet.
    Setup,
    /// Set up, in the given mode.
    Active(Mode),
}

impl Default for Status {
    fn default() -> (s: Status)
        ensures
            s == Status::Setup,
    {
        Status::Setup
    }
}

/// The configuration.
pub struct Config {
    pub status: Status,
    pub ii_principal: Option<Principal>,
}

/// The identity that a configuration holds, as a mathematical value.
pub open spec fn identity_of(ii_principal: Option<Principal>) -> Option<Seq<u8>> {
    match ii_principal {
        Some(p) => Some(p@),
        None => None,
    }
}

impl Default for Config {
    fn default() -> (c: Config)
        ensures
            c.status == Status::Setup,
            c.ii_principal is None,
    {
        Config { status: Status::Setup, ii_principal: None }
    }
}

impl Config {
    /// The status.
    pub fn status(&self) -> (s: Status)
        ensures
            s == self.status,
    {
        self.status
    }

    /// Sets the status.
    pub fn set_status(&mut self, status: Status)
        ensures
            final(self).status == status,
            final(self).ii_principal == old(self).ii_principal,
    {
        self.status = status;
    }

    /// The identity, if one is set.
    pub fn ii_principal(&self) -> (p: Option<Principal>)
        ensures
            identity_of(p) == identity_of(self.ii_principal),
    {
        match &self.ii_principal {
            Some(p) => Some(p.duplicate()),
            None => None,
        }
    }

    /// Sets the identity.
    pub fn set_ii_principal(&mut self, ii_principal: Principal)
        ensures
            final(self).ii_principal == Some(ii_principal),
            final(self).status == old(self).status,
    {
        self.ii_principal = Some(ii_principal);
    }

    /// Whether the service has been set up.
    pub fn is_active(&self) -> (active: bool)
        ensures
            active == (self.status is Active),
    {
        match self.status {
            Status::Active(_) => true,
            Status::Setup => false,
        }
    }
}

/// The service object that owns the configuration.
pub struct ConfigStore {
    config: Config,
}

impl View for ConfigStore {
    type V = (Status, Option<Seq<u8>>);

    closed spec fn view(&self) -> (Status, Option<Seq<u8>>) {
        (self.config.status, identity_of(self.config.ii_principal))
    }
}

impl ConfigStore {
    /// A store with the configuration of a service that is not set up.
    pub fn new() -> (s: ConfigStore)
        ensures
            s@ == (Status::Setup, None::<Seq<u8>>),
    {
        ConfigStore { config: Config::default() }
    }

    /// A store with the given configuration.
    pub fn with_config(config: Config) -> (s: ConfigStore)
        ensures
            s@ == (config.status, identity_of(config.ii_principal)),
    {
        ConfigStore { config }
    }

    /// The configuration held.
    pub fn config(&self) -> (c: &Config)
        ensures
            self@ == (c.status, identity_of(c.ii_principal)),
    {
        &self.config
    }

    /// The identity, if one is set.
    pub fn ii_principal(&self) -> (p: Option<Principal>)
        ensures
            identity_of(p) == self@.1,
    {
        self.config.ii_principal()
    }

    /// Sets the identity.
    pub fn set_ii_principal(&mut self, ii_principal: Principal)
        ensures
            final(self)@ == (old(self)@.0, Some(ii_principal@)),
    {
        self.config.set_ii_principal(ii_principal);
    }

    /// The status.
    pub fn status(&self) -> (s: Status)
        ensures
            s == self@.0,
    {
        self.config.status()
    }

    /// Sets the status.
    pub fn set_status(&mut self, status: Status)
        ensures
            final(self)@ == (status, old(self)@.1),
    {
        self.config.set_status(status);
    }

    /// Whether the service has been set up.
    pub fn is_active(&self) -> (active: bool)
        ensures
            active == (self@.0 is Active),
    {
        self.config.is_active()
    }
}

} // verus!
