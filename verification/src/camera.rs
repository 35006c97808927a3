//! Which of the three cameras is in use, and what switching does.

use vstd::prelude::*;

verus! {

/// The camera in use.
#[derive(Debug, Clone, Copy, PartialEq, Eq, Structural)]
pub enum ActiveCamera {
    Flying,
    Follow,
    Digsite,
}

impl Default for ActiveCamera {
    fn default() -> (r: Self)
        ensures
            r == ActiveCamera::Digsite,
    {
        ActiveCamera::Digsite
    }
}

/// The camera after a toggle: flying, then follow, then digsite, then
/// flying again.
pub open spec fn next_camera(a: ActiveCamera) -> ActiveCamera {
    match a {
        ActiveCamera::Flying => ActiveCamera::Follow,
        ActiveCamera::Follow => ActiveCamera::Digsite,
        ActiveCamera::Digsite => ActiveCamera::Flying,
    }
}

/// The three camera entities (by id) and the one in use.
#[derive(Debug, Clone, Copy)]
pub struct CameraEntities {
    pub follow: u64,
    pub flying: u64,
    pub digsite: u64,
    pub active: ActiveCamera,
}

/// The state one camera is put in: on or off, and with it whether it takes
/// its input actions.
#[derive(Debug, Clone, Copy, PartialEq, Eq, Structural)]
pub struct CameraCommand {
    pub entity: u64,
    pub active: bool,
}

impl CameraEntities {
    /// The camera toggle: move on to the next camera.
    pub fn switch_cameras(&mut self)
        ensures
            final(self).active == next_camera(old(self).active),
            final(self).follow == old(self).follow,
            final(self).flying == old(self).flying,
            final(self).digsite == old(self).digsite,
    {
        self.active = match self.active {
            ActiveCamera::Flying => ActiveCamera::Follow,
            ActiveCamera::Follow => ActiveCamera::Digsite,
            ActiveCamera::Digsite => ActiveCamera::Flying,
        };
    }

    /// The state each camera must be in, flying, follow and digsite in
    /// turn: the one in use on, the others off.
    pub fn assert_state(&self) -> (r: [CameraCommand; 3])
        ensures
            r[0] == (CameraCommand { entity: self.flying, active: self.active == ActiveCamera::Flying }),
            r[1] == (CameraCommand { entity: self.follow, active: self.active == ActiveCamera::Follow }),
            r[2] == (CameraCommand { entity: self.digsite, active: self.active == ActiveCamera::Digsite }),
    {
        let mut flying = false;
        let mut follow = false;
        let mut digsite = false;
        match self.active {
            ActiveCamera::Flying => {
                flying = true;
            },
            ActiveCamera::Follow => {
                follow = true;
            },
            ActiveCamera::Digsite => {
                digsite = true;
            },
        }
        [
            CameraCommand { entity: self.flying, active: flying },
            CameraCommand { entity: self.follow, active: follow },
            CameraCommand { entity: self.digsite, active: digsite },
        ]
    }
}

/// Exactly one camera is in use, and toggling three times comes back to
/// the camera one started with, after visiting the other two.
pub proof fn lemma_camera_cycle(a: ActiveCamera)
    ensures
        next_camera(a) != a,
        next_camera(next_camera(a)) != a,
        next_camera(next_camera(next_camera(a))) == a,
        (a == ActiveCamera::Flying) as int + (a == ActiveCamera::Follow) as int + (a == ActiveCamera::Digsite) as int == 1,
{
}

} // verus!
