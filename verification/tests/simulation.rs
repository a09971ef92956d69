use lorenz_trails::lorenz::integrate;
use lorenz_trails::rational::{q_eq, Q};
use lorenz_trails::trail::{
    compute, dispatch, init_trail_buffer, run_sub_steps, TrailBuffer, TrailRecord,
};
use lorenz_trails::vec3::V3;

fn q(num: i64, den: i64) -> Q {
    Q { num, den }
}

fn rec(x: Q, y: Q, z: Q) -> TrailRecord {
    TrailRecord {
        pos: V3 { x, y, z },
        aux: q(0, 1),
    }
}

fn uniform_buffer(particles: usize, trail_length: usize, r: TrailRecord) -> TrailBuffer {
    TrailBuffer {
        particles,
        trail_length,
        records: vec![r; particles * trail_length],
    }
}

#[test]
fn zero_delta_keeps_every_slot_at_origin() {
    // One particle, trail length 3, seeded at the origin: with dt = 0 the
    // shift moves identical records and the integrator adds nothing, so
    // every slot stays at the origin over any number of frames.
    let origin = rec(q(0, 1), q(0, 1), q(0, 1));
    let mut buf = uniform_buffer(1, 3, origin);
    for _frame in 0..4 {
        run_sub_steps(&mut buf, q(0, 1), q(1, 10), 10).unwrap();
    }
    assert_eq!(buf.records.len(), 3);
    for r in &buf.records {
        assert!(q_eq(r.pos.x, q(0, 1)));
        assert!(q_eq(r.pos.y, q(0, 1)));
        assert!(q_eq(r.pos.z, q(0, 1)));
    }
}

#[test]
fn unit_step_from_ones_matches_the_formula_exactly() {
    // Seed (1,1,1), dt = 1, scale = 1, one sub-step.  The derivative is
    // (10*(1-1), 1*(28-1)-1, 1*1 - 8/3) = (0, 26, -5/3), so the new head
    // must be exactly (1, 27, -2/3).
    let ones = rec(q(1, 1), q(1, 1), q(1, 1));
    let mut buf = uniform_buffer(1, 3, ones);
    dispatch(&mut buf, q(1, 1), q(1, 1)).unwrap();
    let head = buf.records[2];
    assert!(q_eq(head.pos.x, q(1, 1)));
    assert!(q_eq(head.pos.y, q(27, 1)));
    assert!(q_eq(head.pos.z, q(-2, 3)));
    // The auxiliary slot holds the squared speed of the raw derivative:
    // 0^2 + 26^2 + (5/3)^2 = 676 + 25/9 = 6109/9.
    assert!(q_eq(head.aux, q(6109, 9)));
    // The shifted part of the slice still holds the old records.
    assert!(q_eq(buf.records[0].pos.y, q(1, 1)));
    assert!(q_eq(buf.records[1].pos.y, q(1, 1)));
}

#[test]
fn shift_moves_every_sample_one_slot_forward() {
    // Two particles with pairwise distinct records: after one step the
    // slots 0..len-2 of each slice hold the old slots 1..len-1, and the
    // other particle's slice is what its own shift produced, untouched by
    // the neighbour's step.
    let mut records = Vec::new();
    for p in 0..2i64 {
        for a in 0..3i64 {
            records.push(rec(q(10 * p + a, 1), q(0, 1), q(0, 1)));
        }
    }
    let mut buf = TrailBuffer {
        particles: 2,
        trail_length: 3,
        records,
    };
    dispatch(&mut buf, q(0, 1), q(1, 1)).unwrap();
    // particle 0: old slice was x = 0, 1, 2
    assert!(q_eq(buf.records[0].pos.x, q(1, 1)));
    assert!(q_eq(buf.records[1].pos.x, q(2, 1)));
    assert!(q_eq(buf.records[2].pos.x, q(2, 1)));
    // particle 1: old slice was x = 10, 11, 12
    assert!(q_eq(buf.records[3].pos.x, q(11, 1)));
    assert!(q_eq(buf.records[4].pos.x, q(12, 1)));
    assert!(q_eq(buf.records[5].pos.x, q(12, 1)));
}

#[test]
fn integrator_is_deterministic_across_calls() {
    let p = V3 {
        x: q(3, 2),
        y: q(-7, 5),
        z: q(11, 4),
    };
    let first = integrate(&p, q(1, 60), q(1, 10)).unwrap();
    let second = integrate(&p, q(1, 60), q(1, 10)).unwrap();
    assert_eq!(first, second);
}

#[test]
fn sub_stepping_equals_sequential_dispatches() {
    let ones = rec(q(1, 1), q(1, 1), q(1, 1));
    let mut batched = uniform_buffer(1, 3, ones);
    let mut sequential = uniform_buffer(1, 3, ones);
    run_sub_steps(&mut batched, q(1, 100), q(1, 10), 2).unwrap();
    for _ in 0..2 {
        dispatch(&mut sequential, q(1, 100), q(1, 10)).unwrap();
    }
    assert_eq!(batched.records, sequential.records);
}

#[test]
fn per_particle_compute_matches_dispatch() {
    let ones = rec(q(1, 1), q(2, 1), q(3, 1));
    let mut one_by_one = uniform_buffer(2, 3, ones);
    let mut whole = uniform_buffer(2, 3, ones);
    compute(&mut one_by_one, 0, q(1, 50), q(1, 10)).unwrap();
    compute(&mut one_by_one, 1, q(1, 50), q(1, 10)).unwrap();
    dispatch(&mut whole, q(1, 50), q(1, 10)).unwrap();
    assert_eq!(one_by_one.records, whole.records);
}

#[test]
fn overflowing_step_reports_an_error_and_keeps_the_buffer() {
    // A coordinate near the representation's edge makes the first
    // multiplication overflow.
    let huge = rec(q(i64::MAX, 1), q(i64::MAX, 1), q(1, 1));
    let mut buf = uniform_buffer(1, 2, huge);
    let before = buf.records.clone();
    assert!(dispatch(&mut buf, q(1, 1), q(1, 1)).is_err());
    assert_eq!(buf.records, before);
}

#[test]
fn failed_sub_stepping_keeps_the_completed_steps() {
    // The exact denominators roughly square with every nonzero sub-step,
    // so a long run must eventually overflow; the buffer then holds the
    // state reached by the completed dispatches.
    let ones = rec(q(1, 1), q(1, 1), q(1, 1));
    let mut batched = uniform_buffer(1, 3, ones);
    assert!(run_sub_steps(&mut batched, q(1, 100), q(1, 10), 64).is_err());
    let mut sequential = uniform_buffer(1, 3, ones);
    while dispatch(&mut sequential, q(1, 100), q(1, 10)).is_ok() {}
    assert_eq!(batched.records, sequential.records);
}

#[test]
fn seeded_buffer_is_replicated_and_near_origin() {
    let buf = init_trail_buffer(5, 7);
    assert_eq!(buf.particles, 5);
    assert_eq!(buf.trail_length, 7);
    assert_eq!(buf.records.len(), 35);
    for p in 0..5usize {
        let first = buf.records[p * 7];
        for a in 0..7usize {
            let r = buf.records[p * 7 + a];
            assert_eq!(r, first);
            for c in [r.pos.x, r.pos.y, r.pos.z] {
                // within [-1/100, 1/100]
                assert!(c.num * 100 >= -c.den);
                assert!(c.num * 100 <= c.den);
            }
            assert!(q_eq(r.aux, q(0, 1)));
        }
    }
}
