use heat2d::color::Rgb;
use heat2d::error::GridError;
use heat2d::field::Field;
use heat2d::frame::Frame;
use heat2d::simulation::Simulation;
use heat2d::solver::{advance, Stencil};
use std::cell::RefCell;

fn u(x: usize, y: usize, t: f64) -> f64 {
    ((t + (x as f64) + (y as f64)) / std::f64::consts::PI).sin()
}

fn diffuse(s: Stencil<f64>, coefficient: f64) -> f64 {
    let mut next = s.left + s.right + s.top + s.bottom;
    next -= 4.0 * s.center;
    next *= coefficient;
    next += s.center;
    next
}

fn edge(x: usize, y: usize, step: u64) -> i64 {
    100 * (y as i64) + 10 * (x as i64) + step as i64
}

fn sum(s: Stencil<i64>) -> i64 {
    s.center + s.left + s.right + s.top + s.bottom
}

fn shade(value: i64) -> Rgb {
    Rgb { r: (value % 256) as u8, g: 1, b: 2 }
}

#[test]
fn new_simulation_starts_at_step_zero() {
    let mut current = Field::filled(2, 2, 0i64).unwrap();
    assert!(current.set(1, 0, 42));
    let next = Field::filled(2, 2, 7i64).unwrap();
    let simulation = Simulation::new(current, next).unwrap();
    assert_eq!(simulation.steps(), 0);
    assert_eq!(simulation.current().height(), 2);
    assert_eq!(simulation.current().width(), 2);
    assert_eq!(simulation.current().get(1, 0), Some(42));
    assert_eq!(simulation.current().get(0, 0), Some(0));
}

#[test]
fn new_simulation_refuses_buffers_of_two_shapes() {
    let a = Field::filled(2, 3, 0i64).unwrap();
    let b = Field::filled(3, 2, 0i64).unwrap();
    assert_eq!(Simulation::new(a, b).err(), Some(GridError::DimensionMismatch));
    let a = Field::filled(2, 3, 0i64).unwrap();
    let b = Field::filled(2, 4, 0i64).unwrap();
    assert_eq!(Simulation::new(a, b).err(), Some(GridError::DimensionMismatch));
}

#[test]
fn step_is_one_advance() {
    let mut start = Field::filled(3, 3, 0i64).unwrap();
    assert!(start.set(1, 1, 5));
    let mut expected = Field::filled(3, 3, 0i64).unwrap();
    advance(&start, &mut expected, 0, &edge, &sum);

    let mut simulation = Simulation::new(start, Field::filled(3, 3, -1i64).unwrap()).unwrap();
    simulation.step(&edge, &sum);
    assert_eq!(simulation.steps(), 1);
    for i in 0..3 {
        for j in 0..3 {
            assert_eq!(simulation.current().cell(i, j), expected.cell(i, j));
        }
    }
    assert_eq!(simulation.current().cell(1, 1), 5);
    assert_eq!(simulation.current().cell(0, 1), 5 + edge(1, 0, 0));
    assert_eq!(simulation.current().cell(0, 0), 2 * edge(0, 0, 0));
}

#[test]
fn buffers_alternate_over_many_steps() {
    let mut reference = Field::filled(2, 3, 1i64).unwrap();
    let mut scratch = Field::filled(2, 3, 0i64).unwrap();
    let mut simulation =
        Simulation::new(Field::filled(2, 3, 1i64).unwrap(), Field::filled(2, 3, 0i64).unwrap())
            .unwrap();
    let keep = |s: Stencil<i64>| (s.center + s.left + s.right + s.top + s.bottom) % 1000;
    for n in 0..5u64 {
        advance(&reference, &mut scratch, n, &edge, &keep);
        std::mem::swap(&mut reference, &mut scratch);
        simulation.step(&edge, &keep);
        assert_eq!(simulation.steps(), n + 1);
        for i in 0..2 {
            for j in 0..3 {
                assert_eq!(simulation.current().cell(i, j), reference.cell(i, j));
            }
        }
    }
}

#[test]
fn run_takes_as_many_steps_as_asked() {
    let keep = |s: Stencil<i64>| (s.center + s.left + s.right + s.top + s.bottom) % 1000;
    let mut stepped =
        Simulation::new(Field::filled(3, 2, 1i64).unwrap(), Field::filled(3, 2, 0i64).unwrap())
            .unwrap();
    for _ in 0..4 {
        stepped.step(&edge, &keep);
    }
    let mut batched =
        Simulation::new(Field::filled(3, 2, 1i64).unwrap(), Field::filled(3, 2, 0i64).unwrap())
            .unwrap();
    batched.run(4, &edge, &keep);
    assert_eq!(batched.steps(), 4);
    for i in 0..3 {
        for j in 0..2 {
            assert_eq!(batched.current().cell(i, j), stepped.current().cell(i, j));
        }
    }
    batched.run(0, &edge, &keep);
    assert_eq!(batched.steps(), 4);
}

#[test]
fn the_source_is_asked_for_each_step_in_turn() {
    let seen = RefCell::new(Vec::new());
    let mut simulation =
        Simulation::new(Field::filled(1, 1, 0i64).unwrap(), Field::filled(1, 1, 0i64).unwrap())
            .unwrap();
    simulation.run(
        3,
        &|x, y, n| {
            seen.borrow_mut().push(n);
            edge(x, y, n)
        },
        &sum,
    );
    assert_eq!(*seen.borrow(), vec![0, 0, 0, 0, 1, 1, 1, 1, 2, 2, 2, 2]);
}

#[test]
fn interior_cell_of_a_grid_of_zeros_after_one_step() {
    let dt = 0.1;
    let dx = 0.1;
    let k = 25.0;
    let coefficient = k * dt / (dx * dx);
    let mut simulation = Simulation::new(
        Field::filled(4, 4, 0.0f64).unwrap(),
        Field::filled(4, 4, 0.0f64).unwrap(),
    )
    .unwrap();
    simulation.run(1, &|x, y, n| u(x, y, (n as f64) * dt), &|s| diffuse(s, coefficient));
    assert_eq!(simulation.steps(), 1);
    assert!((simulation.current().cell(1, 1) - 0.0).abs() < 1e-9);
    assert!((simulation.current().cell(0, 1) - 78.24044905194664).abs() < 1e-9);
}

#[test]
fn field_stays_bounded_under_the_stability_bound() {
    let dt = 1.0e-4;
    let dx = 1.0e-1;
    let k = 25.0;
    let coefficient = k * dt / (dx * dx);
    assert!(coefficient <= 0.25);
    let mut simulation = Simulation::new(
        Field::filled(8, 8, -1.0f64).unwrap(),
        Field::filled(8, 8, -1.0f64).unwrap(),
    )
    .unwrap();
    simulation.run(10_000, &|x, y, n| u(x, y, (n as f64) * dt), &|s| diffuse(s, coefficient));
    assert_eq!(simulation.steps(), 10_000);
    for i in 0..8 {
        for j in 0..8 {
            let value = simulation.current().cell(i, j);
            assert!(value.is_finite());
            assert!(value.abs() <= 1.0 + 1e-9, "cell ({}, {}) is {}", i, j, value);
        }
    }
}

#[test]
fn produce_next_frame_steps_and_paints() {
    let mut simulation =
        Simulation::new(Field::filled(2, 2, 1i64).unwrap(), Field::filled(2, 2, 0i64).unwrap())
            .unwrap();
    let mut reference =
        Simulation::new(Field::filled(2, 2, 1i64).unwrap(), Field::filled(2, 2, 0i64).unwrap())
            .unwrap();
    reference.run(3, &edge, &sum);
    let mut frame = Frame::black(2, 2).unwrap();
    assert_eq!(simulation.produce_next_frame(&mut frame, 3, &edge, &sum, &shade), Ok(()));
    assert_eq!(simulation.steps(), 3);
    let bytes = frame.to_vec();
    for i in 0..2usize {
        for j in 0..2usize {
            let value = reference.current().cell(i, j);
            assert_eq!(simulation.current().cell(i, j), value);
            let at = 4 * (i * 2 + j);
            assert_eq!(&bytes[at..at + 4], &[(value % 256) as u8, 1, 2, 255]);
        }
    }
}

#[test]
fn produce_next_frame_without_steps_only_paints() {
    let mut simulation =
        Simulation::new(Field::filled(1, 2, 9i64).unwrap(), Field::filled(1, 2, 0i64).unwrap())
            .unwrap();
    let mut frame = Frame::black(2, 1).unwrap();
    assert_eq!(simulation.produce_next_frame(&mut frame, 0, &edge, &sum, &shade), Ok(()));
    assert_eq!(simulation.steps(), 0);
    assert_eq!(frame.to_vec(), vec![9, 1, 2, 255, 9, 1, 2, 255]);
}

#[test]
fn produce_next_frame_into_a_wrong_frame_changes_nothing() {
    let mut simulation =
        Simulation::new(Field::filled(2, 3, 1i64).unwrap(), Field::filled(2, 3, 0i64).unwrap())
            .unwrap();
    let mut frame = Frame::black(2, 3).unwrap();
    let before = frame.to_vec();
    assert_eq!(
        simulation.produce_next_frame(&mut frame, 5, &edge, &sum, &shade),
        Err(GridError::DimensionMismatch)
    );
    assert_eq!(simulation.steps(), 0);
    assert_eq!(frame.to_vec(), before);
    for i in 0..2 {
        for j in 0..3 {
            assert_eq!(simulation.current().cell(i, j), 1);
        }
    }
}
