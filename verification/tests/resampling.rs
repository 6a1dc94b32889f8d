use squiggle_mc::error::InvalidInput;
use squiggle_mc::monte_carlo::{sample_at, sample_n, sample_n_from, Generator};

#[test]
fn a_resample_has_the_size_asked_for() {
    let xs: Vec<f32> = vec![1.0, 2.0, 3.0, 4.0];
    for n in [1, 2, 7, 100, 1000] {
        assert_eq!(sample_n(xs.clone(), n).unwrap().len(), n as usize);
    }
}

#[test]
fn every_draw_is_an_element_of_the_sample() {
    let xs: Vec<f32> = vec![1.5, -2.0, 3.25];
    let drawn = sample_n(xs.clone(), 500).unwrap();
    assert_eq!(drawn.len(), 500);
    for v in drawn {
        assert!(xs.contains(&v));
    }
    let wide: Vec<f64> = vec![0.1, 0.2, 0.3, 0.4, 0.5, 0.6];
    for v in sample_n(wide.clone(), 300).unwrap() {
        assert!(wide.contains(&v));
    }
}

#[test]
fn every_element_is_drawn_sooner_or_later() {
    let xs: Vec<u8> = vec![10, 20, 30];
    let drawn = sample_n(xs.clone(), 2000).unwrap();
    for x in xs {
        assert!(drawn.contains(&x));
    }
}

#[test]
fn asking_for_nothing_gives_nothing() {
    assert_eq!(sample_n(vec![1.0f32, 2.0], 0), Ok(vec![]));
    assert_eq!(sample_n(Vec::<f32>::new(), 0), Ok(vec![]));
    assert_eq!(sample_n(vec![1.0f32, 2.0], -3), Ok(vec![]));
    assert_eq!(sample_n(Vec::<f32>::new(), i32::MIN), Ok(vec![]));
}

#[test]
fn nothing_can_be_drawn_from_nothing() {
    assert_eq!(sample_n(Vec::<f32>::new(), 1), Err(InvalidInput::EmptySamples));
    assert_eq!(sample_n(Vec::<f64>::new(), 50), Err(InvalidInput::EmptySamples));
}

#[test]
fn one_element_comes_back_every_time() {
    assert_eq!(sample_n(vec![4.5f32], 6), Ok(vec![4.5f32; 6]));
    assert_eq!(sample_n(vec![-0.25f64], 1), Ok(vec![-0.25f64]));
    assert_eq!(sample_n(vec![7u64], 1000), Ok(vec![7u64; 1000]));
}

#[test]
fn the_draws_decide_the_resample() {
    let xs: Vec<f32> = vec![10.0, 20.0, 30.0];
    assert_eq!(sample_at(&xs, &vec![2, 0, 0, 1]), Some(vec![30.0, 10.0, 10.0, 20.0]));
    assert_eq!(sample_at(&xs, &vec![]), Some(vec![]));
    assert_eq!(sample_at(&xs, &vec![1, 1, 1]), Some(vec![20.0; 3]));
}

#[test]
fn a_draw_outside_the_sample_makes_no_resample() {
    let xs: Vec<f32> = vec![10.0, 20.0, 30.0];
    assert_eq!(sample_at(&xs, &vec![0, 3]), None);
    assert_eq!(sample_at(&xs, &vec![usize::MAX]), None);
    assert_eq!(sample_at(&Vec::<f32>::new(), &vec![0]), None);
    assert_eq!(sample_at(&Vec::<f32>::new(), &vec![]), Some(vec![]));
}

#[test]
fn one_seed_makes_one_resample() {
    let xs: Vec<f64> = (0..50).map(|i| i as f64 * 0.5).collect();
    let first = sample_n_from(&mut Generator::from_seed(42), xs.clone(), 200).unwrap();
    let second = sample_n_from(&mut Generator::from_seed(42), xs.clone(), 200).unwrap();
    assert_eq!(first, second);
    assert_eq!(first.len(), 200);
    for v in &first {
        assert!(xs.contains(v));
    }
    let other = sample_n_from(&mut Generator::from_seed(43), xs.clone(), 200).unwrap();
    assert_ne!(first, other);
}

#[test]
fn a_generator_moves_on_with_every_draw() {
    let xs: Vec<u32> = (0..1000).collect();
    let mut generator = Generator::from_seed(7);
    let first = sample_n_from(&mut generator, xs.clone(), 100).unwrap();
    let second = sample_n_from(&mut generator, xs.clone(), 100).unwrap();
    assert_ne!(first, second);
    let mut again = Generator::from_seed(7);
    let whole = sample_n_from(&mut again, xs, 200).unwrap();
    assert_eq!(whole[..100], first[..]);
    assert_eq!(whole[100..], second[..]);
}

#[test]
fn a_generator_meets_the_same_refusals() {
    let mut generator = Generator::from_seed(1);
    assert_eq!(sample_n_from(&mut generator, Vec::<f32>::new(), 3), Err(InvalidInput::EmptySamples));
    assert_eq!(sample_n_from(&mut generator, Vec::<f32>::new(), 0), Ok(vec![]));
    assert_eq!(sample_n_from(&mut generator, vec![1.0f32], -1), Ok(vec![]));
    assert_eq!(sample_n_from(&mut generator, vec![2.5f32], 4), Ok(vec![2.5f32; 4]));
}

#[test]
fn draws_stay_below_the_bound() {
    let mut generator = Generator::from_seed(99);
    assert_eq!(generator.draw_below(0), None);
    assert_eq!(generator.draw_below(1), Some(0));
    let mut seen = [false; 5];
    for _ in 0..500 {
        let index = generator.draw_below(5).unwrap();
        assert!(index < 5);
        seen[index] = true;
    }
    assert!(seen.iter().all(|s| *s));
}

#[test]
fn draws_of_a_generator_make_the_resample_that_sample_at_makes() {
    let xs: Vec<f64> = vec![0.5, 1.5, 2.5, 3.5];
    let mut generator = Generator::from_seed(5);
    let indices: Vec<usize> = (0..50).map(|_| generator.draw_below(xs.len()).unwrap()).collect();
    let drawn = sample_n_from(&mut Generator::from_seed(5), xs.clone(), 50).unwrap();
    assert_eq!(sample_at(&xs, &indices), Some(drawn));
}

#[test]
fn asking_for_nothing_draws_nothing() {
    let xs: Vec<f64> = (0..20).map(|i| i as f64).collect();
    let mut generator = Generator::from_seed(17);
    assert_eq!(sample_n_from(&mut generator, xs.clone(), 0), Ok(vec![]));
    assert_eq!(sample_n_from(&mut generator, xs.clone(), -5), Ok(vec![]));
    assert_eq!(sample_n_from(&mut generator, Vec::<f64>::new(), 3), Err(InvalidInput::EmptySamples));
    assert_eq!(generator.draw_below(0), None);
    let after = sample_n_from(&mut generator, xs.clone(), 40).unwrap();
    let fresh = sample_n_from(&mut Generator::from_seed(17), xs, 40).unwrap();
    assert_eq!(after, fresh);
}

#[test]
fn a_resample_leaves_the_generator_where_its_draws_leave_it() {
    let xs: Vec<u16> = (0..9).collect();
    let mut whole = Generator::from_seed(2024);
    let mut single = Generator::from_seed(2024);
    let drawn = sample_n_from(&mut whole, xs.clone(), 25).unwrap();
    let one_by_one: Vec<u16> = (0..25).map(|_| xs[single.draw_below(9).unwrap()]).collect();
    assert_eq!(drawn, one_by_one);
    for bound in [1, 2, 9, 1000, usize::MAX] {
        assert_eq!(whole.draw_below(bound), single.draw_below(bound));
    }
}

#[test]
fn the_bound_decides_the_draw_with_the_state() {
    let mut a = Generator::from_seed(3);
    let mut b = Generator::from_seed(3);
    let mut differed = false;
    for _ in 0..50 {
        let x = a.draw_below(1_000_000).unwrap();
        let y = b.draw_below(1_000_000).unwrap();
        assert_eq!(x, y);
        assert!(x < 1_000_000);
        differed = differed || x != 0;
    }
    assert!(differed);
}
