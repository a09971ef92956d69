use lorenz_trails::camera::Camera;
use lorenz_trails::frame::{Orchestrator, Phase};
use lorenz_trails::rational::{q_eq, Q};
use lorenz_trails::uniform::{cast, Mat4Q, Uniform, UniformRaw};
use lorenz_trails::vec3::Vec4Q;

fn q(num: i64, den: i64) -> Q {
    Q { num, den }
}

fn identity_cam() -> Mat4Q {
    let row = |x: i64, y: i64, z: i64, w: i64| Vec4Q {
        x: q(x, 1),
        y: q(y, 1),
        z: q(z, 1),
        w: q(w, 1),
    };
    Mat4Q {
        rx: row(1, 0, 0, 0),
        ry: row(0, 1, 0, 0),
        rz: row(0, 0, 1, 0),
        rw: row(0, 0, 0, 1),
    }
}

#[test]
fn camera_update_advances_damps_and_clamps() {
    // pitch limit ~ pi/2 - 0.1, held here as 147/100.
    let mut cam = Camera::new(q(25, 1), q(147, 100));
    cam.set_angle_velocity(q(2, 1), q(1, 1));
    cam.set_zoom_velocity(q(-100, 1));
    cam.update(q(1, 2)).unwrap();
    // angles advance by velocity * dt
    assert!(q_eq(cam.yaw, q(1, 1)));
    assert!(q_eq(cam.pitch, q(1, 2)));
    // velocities decay by 9/10
    assert!(q_eq(cam.yaw_vel, q(9, 5)));
    assert!(q_eq(cam.pitch_vel, q(9, 10)));
    assert!(q_eq(cam.zoom_vel, q(-90, 1)));
    // zoom 25 - 50 clamps at zero
    assert!(q_eq(cam.zoom, q(0, 1)));
    // a second large pitch step clamps at the limit
    cam.set_angle_velocity(q(0, 1), q(100, 1));
    cam.update(q(1, 1)).unwrap();
    assert!(q_eq(cam.pitch, q(147, 100)));
    // and a large negative one clamps at the negative limit
    cam.set_angle_velocity(q(0, 1), q(-100, 1));
    cam.update(q(1, 1)).unwrap();
    assert!(q_eq(cam.pitch, q(-147, 100)));
}

#[test]
fn camera_drag_flag_is_kept() {
    let mut cam = Camera::new(q(25, 1), q(147, 100));
    assert!(!cam.dragging);
    cam.set_dragging(true);
    assert!(cam.dragging);
    cam.update(q(1, 60)).unwrap();
    assert!(cam.dragging);
}

#[test]
fn uniform_block_layout_is_eighty_bytes_little_endian() {
    let mut cam = Vec::new();
    for i in 0..16u32 {
        cam.push(0x01020304u32.wrapping_mul(i + 1));
    }
    let raw = UniformRaw {
        cam,
        delta_time: 0xaabbccdd,
    };
    let bytes = cast(&raw);
    assert_eq!(bytes.len(), 80);
    // first word 0x01020304 little-endian
    assert_eq!(&bytes[0..4], &[0x04, 0x03, 0x02, 0x01]);
    // delta word at offset 64
    assert_eq!(&bytes[64..68], &[0xdd, 0xcc, 0xbb, 0xaa]);
    // zero padding up to 80
    assert_eq!(&bytes[68..80], &[0u8; 12]);
}

#[test]
fn frame_cycle_runs_through_all_phases() {
    // The random seeds carry four-digit denominators, and each nonzero
    // sub-step squares the exact denominators; a zero time delta keeps the
    // cycle exact over any number of frames (and is itself one of the
    // scenarios the design pins down: no time, no motion).
    let camera = Camera::new(q(25, 1), q(147, 100));
    let mut orch = Orchestrator::new(1, 3, camera, q(1, 10), q(5, 1), 10);
    assert_eq!(orch.phase, Phase::Idle);
    orch.begin_frame(q(0, 1)).unwrap();
    assert_eq!(orch.phase, Phase::Simulating);
    orch.simulate().unwrap();
    assert_eq!(orch.phase, Phase::Rendering);
    let uniform = Uniform {
        cam: identity_cam(),
        delta_time: q(0, 1),
    };
    let vertices = orch.render(&uniform).unwrap();
    assert_eq!(orch.phase, Phase::Presenting);
    assert_eq!(vertices.len(), 3);
    orch.present();
    assert_eq!(orch.phase, Phase::Idle);
    // a second frame runs as well
    orch.begin_frame(q(0, 1)).unwrap();
    orch.simulate().unwrap();
    let vertices = orch.render(&uniform).unwrap();
    assert_eq!(vertices.len(), 3);
    orch.present();
    assert_eq!(orch.phase, Phase::Idle);
}
