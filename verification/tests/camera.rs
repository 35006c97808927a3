use arch::camera::{ActiveCamera, CameraCommand, CameraEntities};

#[test]
fn camera_toggle_cycles() {
    let mut cameras = CameraEntities { follow: 1, flying: 2, digsite: 3, active: ActiveCamera::default() };
    assert_eq!(cameras.active, ActiveCamera::Digsite);
    cameras.switch_cameras();
    assert_eq!(cameras.active, ActiveCamera::Flying);
    cameras.switch_cameras();
    assert_eq!(cameras.active, ActiveCamera::Follow);
    cameras.switch_cameras();
    assert_eq!(cameras.active, ActiveCamera::Digsite);
}

#[test]
fn camera_assert_state_turns_one_on() {
    let mut cameras = CameraEntities { follow: 1, flying: 2, digsite: 3, active: ActiveCamera::Follow };
    assert_eq!(
        cameras.assert_state(),
        [
            CameraCommand { entity: 2, active: false },
            CameraCommand { entity: 1, active: true },
            CameraCommand { entity: 3, active: false },
        ]
    );
    cameras.switch_cameras();
    assert_eq!(
        cameras.assert_state(),
        [
            CameraCommand { entity: 2, active: false },
            CameraCommand { entity: 1, active: false },
            CameraCommand { entity: 3, active: true },
        ]
    );
}
