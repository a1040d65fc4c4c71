//! The life cycle of a key: generated, active, retired, destroyed.

use vstd::prelude::*;
use crate::error::current_timestamp;
use crate::scalar::Scalar;

verus! {

/// The states of a key.
#[derive(Clone, Copy, Debug, PartialEq, Eq, Structural)]
pub enum KeyState {
    Generated,
    Active,
    Retired,
    Destroyed,
}

/// A secret key with its state and the times of its transitions, in seconds
/// since the Unix epoch.
#[derive(Debug)]
pub struct Key {
    /// The secret; 0 once the key is destroyed.
    pub secret: Scalar,
    /// The present state.
    pub state: KeyState,
    /// When the key was made.
    pub creation_time: i64,
    /// When the key was last activated.
    pub activation_time: Option<i64>,
    /// When the key was last retired.
    pub retirement_time: Option<i64>,
}

impl Key {
    /// A key in the state `Generated`, never activated or retired.
    pub fn new(secret: Scalar) -> (r: Key)
        ensures
            r.secret == secret,
            r.state == KeyState::Generated,
            r.activation_time.is_none(),
            r.retirement_time.is_none(),
    {
        Key {
            secret,
            state: KeyState::Generated,
            creation_time: current_timestamp(),
            activation_time: None,
            retirement_time: None,
        }
    }

    /// Makes the key active and notes the time.
    pub fn activate(&mut self)
        ensures
            final(self).state == KeyState::Active,
            final(self).activation_time.is_some(),
            final(self).secret == old(self).secret,
            final(self).creation_time == old(self).creation_time,
            final(self).retirement_time == old(self).retirement_time,
    {
        self.state = KeyState::Active;
        self.activation_time = Some(current_timestamp());
    }

    /// Retires the key and notes the time.
    pub fn retire(&mut self)
        ensures
            final(self).state == KeyState::Retired,
            final(self).retirement_time.is_some(),
            final(self).secret == old(self).secret,
            final(self).creation_time == old(self).creation_time,
            final(self).activation_time == old(self).activation_time,
    {
        self.state = KeyState::Retired;
        self.retirement_time = Some(current_timestamp());
    }

    /// Destroys the key: the secret is overwritten with 0 at once.
    pub fn destroy(&mut self)
        ensures
            final(self).state == KeyState::Destroyed,
            final(self).secret@ == 0,
            final(self).creation_time == old(self).creation_time,
            final(self).activation_time == old(self).activation_time,
            final(self).retirement_time == old(self).retirement_time,
    {
        self.secret.zeroize();
        self.state = KeyState::Destroyed;
    }
}

impl Drop for Key {
    /// The secret is overwritten with 0 when the key goes out of scope.
    fn drop(&mut self)
        opens_invariants none
        no_unwind
    {
        self.secret.zeroize();
    }
}

} // verus!
