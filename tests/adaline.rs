use adaline::adaline_nn::{Perceptron, ONE};
use adaline::error::ModelError;
use adaline::glyph::parse_glyph;
use adaline::sample::Sample;
use adaline::trainer::train;

fn names(list: &[&str]) -> Vec<String> {
    list.iter().map(|s| s.to_string()).collect()
}

fn sample(label: &str, grid: &[i32]) -> Sample {
    Sample::new(label.to_string(), grid, grid.len()).unwrap()
}

/// One millionth, in units of `1 / ONE^2`, rounded up.
const ONE_MILLIONTH: u128 = 1099512;

#[test]
fn encoding_prepends_bias_and_maps_pixels_to_bipolar() {
    let s = Sample::new("A".to_string(), &[1, 0, 0, 1, 7], 5).unwrap();
    assert_eq!(s.character, "A");
    assert_eq!(s.grid, vec![1, 1, -1, -1, 1, 1]);
}

#[test]
fn encoding_treats_every_nonzero_pixel_as_set() {
    let s = Sample::new("n".to_string(), &[-3, 0, 2], 3).unwrap();
    assert_eq!(s.grid, vec![1, 1, -1, 1]);
}

#[test]
fn encoding_of_a_full_glyph_has_sixty_five_features() {
    let s = Sample::new("B".to_string(), &[0; 64], 64).unwrap();
    assert_eq!(s.grid.len(), 65);
    assert_eq!(s.grid[0], 1);
    assert!(s.grid[1..].iter().all(|&v| v == -1));
}

#[test]
fn encoding_of_an_empty_grid_is_the_bias_alone() {
    let s = Sample::new("e".to_string(), &[], 0).unwrap();
    assert_eq!(s.grid, vec![1]);
}

#[test]
fn encoding_rejects_a_short_grid() {
    let r = Sample::new("A".to_string(), &[1; 63], 64);
    assert_eq!(r.err(), Some(ModelError::MalformedSample { expected: 64, actual: 63 }));
}

#[test]
fn encoding_rejects_a_long_grid() {
    let r = Sample::new("A".to_string(), &[1; 65], 64);
    assert_eq!(r.err(), Some(ModelError::MalformedSample { expected: 64, actual: 65 }));
}

#[test]
fn construction_rejects_an_empty_roster() {
    let r = Perceptron::new(0, 3, 1, 100, &[]);
    assert_eq!(r.err(), Some(ModelError::InvalidModelConfig));
}

#[test]
fn construction_rejects_duplicate_labels() {
    let r = Perceptron::new(3, 3, 1, 100, &names(&["A", "B", "A"]));
    assert_eq!(r.err(), Some(ModelError::InvalidModelConfig));
}

#[test]
fn construction_rejects_a_class_count_unlike_the_roster() {
    let r = Perceptron::new(3, 3, 1, 100, &names(&["A", "B"]));
    assert_eq!(r.err(), Some(ModelError::InvalidModelConfig));
}

#[test]
fn construction_rejects_a_learning_rate_that_is_not_positive() {
    assert_eq!(Perceptron::new(1, 3, 0, 100, &names(&["A"])).err(), Some(ModelError::InvalidModelConfig));
    assert_eq!(Perceptron::new(1, 3, 1, 0, &names(&["A"])).err(), Some(ModelError::InvalidModelConfig));
}

#[test]
fn construction_rejects_too_many_features() {
    let r = Perceptron::new(1, 1025, 1, 100, &names(&["A"]));
    assert_eq!(r.err(), Some(ModelError::InvalidModelConfig));
    assert!(Perceptron::new(1, 1024, 1, 100, &names(&["A"])).is_ok());
}

#[test]
fn fresh_model_predicts_the_first_class_on_zero_input() {
    let m = Perceptron::new(3, 4, 1, 100, &names(&["A", "B", "C"])).unwrap();
    assert_eq!(m.predict(&[0, 0, 0, 0]), Ok((0, 0)));
    assert_eq!(m.predict(&[1, -1, 1, 1]), Ok((0, 0)));
}

#[test]
fn predict_rejects_a_wrong_length() {
    let m = Perceptron::new(2, 4, 1, 100, &names(&["A", "B"])).unwrap();
    assert_eq!(m.predict(&[1, 1, 1]), Err(ModelError::DimensionMismatch { expected: 4, actual: 3 }));
}

#[test]
fn class_index_follows_the_roster_order() {
    let m = Perceptron::new(3, 2, 1, 100, &names(&["X", "A", "M"])).unwrap();
    assert_eq!(m.class_index(&"X".to_string()), Some(0));
    assert_eq!(m.class_index(&"A".to_string()), Some(1));
    assert_eq!(m.class_index(&"M".to_string()), Some(2));
    assert_eq!(m.class_index(&"Q".to_string()), None);
}

#[test]
fn one_epoch_on_one_class_gives_the_exact_error_and_step() {
    let mut m = Perceptron::new(1, 2, 1, 100, &names(&["A"])).unwrap();
    let samples = vec![sample("A", &[5])];
    assert_eq!(m.train_epoch(&samples), Ok(1099511627776));
    assert_eq!(m.predict(&[1, 1]), Ok((0, 41942)));
    assert_eq!(m.predict(&[1, -1]), Ok((0, 0)));
    assert_eq!(m.train_epoch(&samples), Ok(1013312009956));
    assert_eq!(m.train_epoch(&samples), Ok(933870976900));
}

#[test]
fn epoch_error_is_measured_before_each_sample_update() {
    let mut m = Perceptron::new(2, 3, 1, 10, &names(&["P", "Q"])).unwrap();
    let samples = vec![sample("P", &[1, 0]), sample("Q", &[0, 1])];
    // First sample: both rows miss by ONE. Second sample: after the first
    // update both rows miss by 838861.
    let expected = ((ONE as u128) * (ONE as u128) * 2 + 838861u128 * 838861 * 2) / 2;
    assert_eq!(expected, 1803199405097);
    assert_eq!(m.train_epoch(&samples), Ok(expected));
    assert_eq!(m.predict(&[1, 1, -1]), Ok((0, 796917)));
    assert_eq!(m.predict(&[1, -1, 1]), Ok((1, 713031)));
    assert_eq!(m.predict(&[1, 1, 1]), Ok((0, 41943)));
    assert_eq!(m.train_epoch(&samples), Ok(144679278077));
}

#[test]
fn epoch_with_unknown_label_fails_and_trains_nothing() {
    let mut m = Perceptron::new(1, 2, 1, 100, &names(&["A"])).unwrap();
    let samples = vec![sample("A", &[1]), sample("Z", &[1])];
    assert_eq!(m.train_epoch(&samples), Err(ModelError::UnknownClass { label: "Z".to_string() }));
    assert_eq!(m.predict(&[1, 1]), Ok((0, 0)));
}

#[test]
fn epoch_with_wrong_length_sample_fails_and_trains_nothing() {
    let mut m = Perceptron::new(1, 2, 1, 100, &names(&["A"])).unwrap();
    let samples = vec![sample("A", &[1]), sample("A", &[1, 1])];
    assert_eq!(m.train_epoch(&samples), Err(ModelError::DimensionMismatch { expected: 2, actual: 3 }));
    assert_eq!(m.predict(&[1, 1]), Ok((0, 0)));
}

#[test]
fn epoch_over_no_samples_reports_zero() {
    let mut m = Perceptron::new(1, 2, 1, 100, &names(&["A"])).unwrap();
    assert_eq!(m.train_epoch(&[]), Ok(0));
}

#[test]
fn single_sample_single_class_error_strictly_falls() {
    let mut m = Perceptron::new(1, 65, 1, 200, &names(&["A"])).unwrap();
    let samples = vec![sample("A", &[1; 64])];
    let mut errors = Vec::new();
    for _ in 0..200 {
        let mse = m.train_epoch(&samples).unwrap();
        errors.push(mse);
        if mse < ONE_MILLIONTH {
            break;
        }
    }
    assert_eq!(errors.len(), 8);
    assert_eq!(errors[0], 1099511627776);
    assert!(errors.windows(2).all(|w| w[1] < w[0]));
}

#[test]
fn two_glyphs_converge_and_are_recognised() {
    let names = names(&["A", "B"]);
    let mut m = Perceptron::new(2, 65, 1, 100, &names).unwrap();
    let a = sample("A", &[1; 64]);
    let b = sample("B", &[0; 64]);
    let a_features = a.grid.clone();
    let b_features = b.grid.clone();
    let report = train(&mut m, &[a, b], 5000, ONE_MILLIONTH).unwrap();
    assert!(report.converged);
    assert!(report.epochs < 5000);
    assert_eq!(report.epochs, 42);
    assert_eq!(report.last_mse, 980098);
    let (ia, score_a) = m.predict(&a_features).unwrap();
    assert_eq!(ia, 0);
    assert!(score_a > 0);
    let (ib, _) = m.predict(&b_features).unwrap();
    assert_eq!(ib, 1);
}

#[test]
fn single_class_model_trains_and_always_predicts_it() {
    let mut m = Perceptron::new(1, 3, 1, 100, &names(&["only"])).unwrap();
    let samples = vec![sample("only", &[1, 0]), sample("only", &[0, 0])];
    let report = train(&mut m, &samples, 10, 0).unwrap();
    assert_eq!(report.epochs, 10);
    assert!(!report.converged);
    for x in [[1i8, 1, -1], [1, -1, -1], [0, 0, 0], [-5, 7, 100]] {
        assert_eq!(m.predict(&x).unwrap().0, 0);
    }
}

#[test]
fn train_stops_at_the_budget_without_error() {
    let mut m = Perceptron::new(2, 2, 1, 100, &names(&["A", "B"])).unwrap();
    let samples = vec![sample("A", &[1]), sample("B", &[0])];
    let report = train(&mut m, &samples, 3, 0).unwrap();
    assert_eq!(report.epochs, 3);
    assert!(!report.converged);
    assert!(report.last_mse > 0);
}

#[test]
fn train_with_no_budget_runs_nothing() {
    let mut m = Perceptron::new(1, 2, 1, 100, &names(&["A"])).unwrap();
    let samples = vec![sample("Z", &[1])];
    let report = train(&mut m, &samples, 0, 10).unwrap();
    assert_eq!(report.epochs, 0);
    assert_eq!(report.last_mse, 0);
    assert!(!report.converged);
}

#[test]
fn train_reports_an_unknown_label() {
    let mut m = Perceptron::new(1, 2, 1, 100, &names(&["A"])).unwrap();
    let samples = vec![sample("Z", &[1])];
    assert_eq!(
        train(&mut m, &samples, 5, 10).err(),
        Some(ModelError::UnknownClass { label: "Z".to_string() })
    );
}

#[test]
fn weights_saturate_at_the_limit() {
    // A learning rate of 1000 overshoots and diverges; the weights stop at
    // the edge of the range instead of overflowing.
    let mut m = Perceptron::new(1, 2, 1000, 1, &names(&["A"])).unwrap();
    let samples = vec![sample("A", &[1])];
    for _ in 0..20 {
        m.train_epoch(&samples).unwrap();
    }
    let (_, a) = m.predict(&[1, 1]).unwrap();
    assert!(a.abs() <= 2 * 268435456);
    assert_eq!(m.predict(&[1, -1]), Ok((0, 0)));
}


#[test]
fn glyph_text_reads_hash_as_set_and_dot_as_clear() {
    let text: Vec<char> = "#.\n.#x#\n".chars().collect();
    assert_eq!(parse_glyph(&text, 5), Ok(vec![1, 0, 0, 1, 1]));
}

#[test]
fn glyph_text_keeps_only_the_first_pixels() {
    let text: Vec<char> = "##..##".chars().collect();
    assert_eq!(parse_glyph(&text, 3), Ok(vec![1, 1, 0]));
}

#[test]
fn glyph_text_with_too_few_pixels_is_malformed() {
    let text: Vec<char> = "#.#\n".chars().collect();
    assert_eq!(parse_glyph(&text, 64), Err(ModelError::MalformedSample { expected: 64, actual: 3 }));
}

#[test]
fn glyph_of_eight_rows_encodes_to_a_sample() {
    let text: String = (0..8).map(|r| if r % 2 == 0 { "########\n" } else { "........\n" }).collect();
    let chars: Vec<char> = text.chars().collect();
    let grid = parse_glyph(&chars, 64).unwrap();
    let s = Sample::new("Z".to_string(), &grid, 64).unwrap();
    assert_eq!(s.grid.len(), 65);
    assert_eq!(s.grid[1..9], [1; 8]);
    assert_eq!(s.grid[9..17], [-1; 8]);
}
