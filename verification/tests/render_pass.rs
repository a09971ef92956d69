use lorenz_trails::rational::{q_eq, q_le, Q};
use lorenz_trails::render::{frag, vert};
use lorenz_trails::trail::{TrailBuffer, TrailRecord};
use lorenz_trails::uniform::{Mat4Q, Uniform};
use lorenz_trails::vec3::{V3, Vec4Q};

fn q(num: i64, den: i64) -> Q {
    Q { num, den }
}

fn row(x: i64, y: i64, z: i64, w: i64) -> Vec4Q {
    Vec4Q {
        x: q(x, 1),
        y: q(y, 1),
        z: q(z, 1),
        w: q(w, 1),
    }
}

fn identity_uniform() -> Uniform {
    Uniform {
        cam: Mat4Q {
            rx: row(1, 0, 0, 0),
            ry: row(0, 1, 0, 0),
            rz: row(0, 0, 1, 0),
            rw: row(0, 0, 0, 1),
        },
        delta_time: q(0, 1),
    }
}

fn sample_buffer() -> TrailBuffer {
    let mut records = Vec::new();
    for i in 0..8i64 {
        records.push(TrailRecord {
            pos: V3 {
                x: q(i, 1),
                y: q(2 * i, 1),
                z: q(-i, 1),
            },
            aux: q(i, 2),
        });
    }
    TrailBuffer {
        particles: 2,
        trail_length: 4,
        records,
    }
}

#[test]
fn vertex_age_size_alpha_and_clip() {
    let buf = sample_buffer();
    let uni = identity_uniform();
    // index 6 = particle 1, offset 2: age 2/4, size 5 * 2/4 = 5/2.
    let v = vert(6, &buf, &uni, q(5, 1)).unwrap();
    assert!(q_eq(v.alpha, q(2, 4)));
    assert!(q_eq(v.size, q(5, 2)));
    // identity camera: clip = (x, y, z, 1)
    assert!(q_eq(v.clip.x, q(6, 1)));
    assert!(q_eq(v.clip.y, q(12, 1)));
    assert!(q_eq(v.clip.z, q(-6, 1)));
    assert!(q_eq(v.clip.w, q(1, 1)));
    // the auxiliary scalar is passed through unmodified
    assert!(q_eq(v.vel, q(6, 2)));
}

#[test]
fn vertex_clip_uses_the_camera_matrix() {
    let buf = sample_buffer();
    let uni = Uniform {
        cam: Mat4Q {
            rx: row(2, 0, 0, 3),
            ry: row(0, 0, 1, 0),
            rz: row(1, 1, 1, 1),
            rw: row(0, 0, 0, 1),
        },
        delta_time: q(0, 1),
    };
    // index 1: position (1, 2, -1)
    let v = vert(1, &buf, &uni, q(5, 1)).unwrap();
    assert!(q_eq(v.clip.x, q(5, 1))); // 2*1 + 3
    assert!(q_eq(v.clip.y, q(-1, 1))); // z
    assert!(q_eq(v.clip.z, q(3, 1))); // 1 + 2 - 1 + 1
    assert!(q_eq(v.clip.w, q(1, 1)));
}

#[test]
fn age_is_monotone_within_a_slice_and_below_one() {
    let buf = sample_buffer();
    let uni = identity_uniform();
    let mut last: Option<Q> = None;
    for idx in 4..8usize {
        let v = vert(idx, &buf, &uni, q(5, 1)).unwrap();
        assert!(q_le(q(0, 1), v.alpha));
        assert!(!q_le(q(1, 1), v.alpha));
        if let Some(prev) = last {
            assert!(q_le(prev, v.alpha));
            assert!(!q_eq(prev, v.alpha));
        }
        last = Some(v.alpha);
    }
}

#[test]
fn fragment_tone_maps_the_squared_speed() {
    // squared speed 22500 (speed 150) maps to green exactly 1.
    let c = frag(q(1, 2), q(22500, 1)).unwrap();
    assert!(q_eq(c.red, q(1, 1)));
    assert!(q_eq(c.green, q(1, 1)));
    assert!(q_eq(c.blue, q(1, 1)));
    assert!(q_eq(c.alpha, q(1, 2)));
    // half the threshold maps to one half.
    let c = frag(q(3, 4), q(11250, 1)).unwrap();
    assert!(q_eq(c.green, q(1, 2)));
}
