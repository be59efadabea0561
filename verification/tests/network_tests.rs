use neural_net::codec::deserialize;
use neural_net::codec::net_from_bits;
use neural_net::codec::net_to_bits;
use neural_net::codec::serialize;
use neural_net::metrics::argmax;
use neural_net::metrics::make_target;
use neural_net::network::NetError;
use neural_net::network::NeuralNet;
use neural_net::network::Scalar;

/// Double-precision scalars for the network's abstract arithmetic.
#[derive(Clone, Copy, Debug, PartialEq)]
struct F(f64);

impl Scalar for F {
    // The spec-level members are erased ghosts at runtime; each abstract
    // operation means the operation itself.
    fn spec_plus(self, other: Self) -> Self {
        F(self.0 + other.0)
    }

    fn spec_minus(self, other: Self) -> Self {
        F(self.0 - other.0)
    }

    fn spec_times(self, other: Self) -> Self {
        F(self.0 * other.0)
    }

    fn spec_sigmoid(self) -> Self {
        F(1.0 / (1.0 + f64::exp(-self.0)))
    }

    fn spec_complement(self) -> Self {
        F(1.0 - self.0)
    }

    fn spec_to_bits(self) -> u64 {
        self.0.to_bits()
    }

    fn spec_from_bits(bits: u64) -> Self {
        F(f64::from_bits(bits))
    }

    fn lemma_bits_round_trip(_x: Self) {
        // f64::from_bits(f64::to_bits(x)) is x, bit for bit.
    }

    fn plus(self, other: Self) -> Self {
        F(self.0 + other.0)
    }

    fn minus(self, other: Self) -> Self {
        F(self.0 - other.0)
    }

    fn times(self, other: Self) -> Self {
        F(self.0 * other.0)
    }

    fn sigmoid(self) -> Self {
        F(1.0 / (1.0 + f64::exp(-self.0)))
    }

    fn complement(self) -> Self {
        F(1.0 - self.0)
    }

    fn to_bits(self) -> u64 {
        self.0.to_bits()
    }

    fn from_bits(bits: u64) -> Self {
        F(f64::from_bits(bits))
    }
}

fn fv(values: &[f64]) -> Vec<F> {
    values.iter().map(|&x| F(x)).collect()
}

/// Sixteen fixed small weights for a 2-4-2 network (2*4 + 2*4 samples),
/// playing the role of the Gaussian initialization draws.
fn small_net() -> NeuralNet<F> {
    let samples = fv(&[
        0.3, -0.2, 0.1, 0.4, -0.3, 0.2, -0.1, 0.25, 0.2, -0.4, 0.35, -0.15, -0.25, 0.1, 0.45,
        -0.05,
    ]);
    NeuralNet::new(2, 4, 2, F(0.3), samples)
}

#[test]
fn new_lays_weights_out_row_major() {
    let samples = fv(&[
        1.0, 2.0, 3.0, 4.0, 5.0, 6.0, 7.0, 8.0, 9.0, 10.0, 11.0, 12.0, 13.0, 14.0, 15.0, 16.0,
    ]);
    let net = NeuralNet::new(2, 4, 2, F(0.5), samples);
    assert_eq!(net.input_nodes, 2);
    assert_eq!(net.hidden_nodes, 4);
    assert_eq!(net.output_nodes, 2);
    assert_eq!(net.training_rate, F(0.5));
    assert_eq!(net.wih.len(), 4);
    assert_eq!(net.wih[0], fv(&[1.0, 2.0]));
    assert_eq!(net.wih[3], fv(&[7.0, 8.0]));
    assert_eq!(net.who.len(), 2);
    assert_eq!(net.who[0], fv(&[9.0, 10.0, 11.0, 12.0]));
    assert_eq!(net.who[1], fv(&[13.0, 14.0, 15.0, 16.0]));
}

#[test]
fn query_output_lies_strictly_inside_unit_interval() {
    let net = small_net();
    let out = net.query(&fv(&[0.9, 0.1])).unwrap();
    assert_eq!(out.len(), 2);
    for o in &out {
        assert!(o.0 > 0.0 && o.0 < 1.0);
    }
    // Extreme (but valid-length) inputs still land inside (0, 1).
    let out = net.query(&fv(&[1.0, 0.01])).unwrap();
    for o in &out {
        assert!(o.0 > 0.0 && o.0 < 1.0);
    }
}

#[test]
fn query_is_deterministic_for_fixed_weights() {
    let net = small_net();
    let a = net.query(&fv(&[0.9, 0.1])).unwrap();
    let b = net.query(&fv(&[0.9, 0.1])).unwrap();
    assert_eq!(a.len(), b.len());
    for (x, y) in a.iter().zip(b.iter()) {
        assert_eq!(x.0.to_bits(), y.0.to_bits());
    }
}

#[test]
fn query_rejects_wrong_input_length() {
    let net = small_net();
    assert_eq!(net.query(&fv(&[0.9, 0.1, 0.5])).unwrap_err(), NetError::InputLength);
    assert_eq!(net.query(&fv(&[0.9])).unwrap_err(), NetError::InputLength);
}

#[test]
fn train_rejects_wrong_input_length() {
    let mut net = small_net();
    let before = serialize(&net_to_bits(&net));
    let err = net.train(&fv(&[0.9, 0.1, 0.2]), &fv(&[0.99, 0.1])).unwrap_err();
    assert_eq!(err, NetError::InputLength);
    // The refused call changed nothing.
    assert_eq!(serialize(&net_to_bits(&net)), before);
}

#[test]
fn train_rejects_wrong_target_length() {
    let mut net = small_net();
    let before = serialize(&net_to_bits(&net));
    let err = net.train(&fv(&[0.9, 0.1]), &fv(&[0.99])).unwrap_err();
    assert_eq!(err, NetError::TargetLength);
    assert_eq!(serialize(&net_to_bits(&net)), before);
}

#[test]
fn one_train_step_moves_output_toward_target() {
    let mut net = small_net();
    let input = fv(&[0.9, 0.1]);
    let target = [0.99, 0.1];
    let sq_err = |out: &Vec<F>| -> f64 {
        out.iter().zip(target.iter()).map(|(o, t)| (t - o.0) * (t - o.0)).sum()
    };
    let before = sq_err(&net.query(&input).unwrap());
    net.train(&input, &fv(&target)).unwrap();
    let after = sq_err(&net.query(&input).unwrap());
    assert!(after < before, "after {after} not below before {before}");
}

#[test]
fn repeated_training_separates_the_trained_example() {
    let mut net = small_net();
    let input = fv(&[0.9, 0.1]);
    let target = fv(&[0.99, 0.1]);
    for _ in 0..200 {
        net.train(&input, &target).unwrap();
    }
    let out = net.query(&input).unwrap();
    assert!(out[0].0 > out[1].0, "expected {} > {}", out[0].0, out[1].0);
}

#[test]
fn training_separable_dataset_scores_above_ninety_percent() {
    let mut net = small_net();
    let inputs: Vec<Vec<F>> = vec![
        fv(&[0.9, 0.1]),
        fv(&[0.8, 0.2]),
        fv(&[0.95, 0.15]),
        fv(&[0.85, 0.05]),
        fv(&[0.1, 0.9]),
        fv(&[0.2, 0.8]),
        fv(&[0.15, 0.95]),
        fv(&[0.05, 0.85]),
    ];
    let labels: Vec<usize> = vec![0, 0, 0, 0, 1, 1, 1, 1];
    net.train_all(&inputs, &labels, F(0.99), F(0.1), 200).unwrap();
    let correct = net.evaluate(&inputs, &labels).unwrap();
    assert!(
        correct as f64 / inputs.len() as f64 > 0.9,
        "only {correct} of {} correct",
        inputs.len()
    );
}

#[test]
fn train_all_rejects_out_of_range_label() {
    let mut net = small_net();
    let before = serialize(&net_to_bits(&net));
    let inputs: Vec<Vec<F>> = vec![fv(&[0.9, 0.1]), fv(&[0.1, 0.9])];
    let labels: Vec<usize> = vec![0, 2];
    let err = net.train_all(&inputs, &labels, F(0.99), F(0.1), 3).unwrap_err();
    assert_eq!(err, NetError::LabelRange);
    assert_eq!(serialize(&net_to_bits(&net)), before);
}

#[test]
fn train_all_rejects_wrong_example_length() {
    let mut net = small_net();
    let before = serialize(&net_to_bits(&net));
    let inputs: Vec<Vec<F>> = vec![fv(&[0.9, 0.1]), fv(&[0.1, 0.9, 0.5])];
    let labels: Vec<usize> = vec![0, 1];
    let err = net.train_all(&inputs, &labels, F(0.99), F(0.1), 3).unwrap_err();
    assert_eq!(err, NetError::InputLength);
    assert_eq!(serialize(&net_to_bits(&net)), before);
}

#[test]
fn from_parts_accepts_consistent_dimensions() {
    let wih = vec![fv(&[0.1, 0.2]), fv(&[0.3, 0.4])];
    let who = vec![fv(&[0.5, 0.6])];
    let net = NeuralNet::from_parts(2, 2, 1, F(0.2), wih.clone(), who.clone()).unwrap();
    assert_eq!(net.wih, wih);
    assert_eq!(net.who, who);
    assert_eq!(net.training_rate, F(0.2));
}

#[test]
fn from_parts_rejects_inconsistent_dimensions() {
    // A ragged row.
    let wih = vec![fv(&[0.1, 0.2]), fv(&[0.3])];
    let who = vec![fv(&[0.5, 0.6])];
    let err = NeuralNet::from_parts(2, 2, 1, F(0.2), wih, who).unwrap_err();
    assert_eq!(err, NetError::DimensionMismatch);
    // A zero layer size.
    let err = NeuralNet::<F>::from_parts(0, 1, 1, F(0.2), vec![fv(&[])], vec![fv(&[0.5])])
        .unwrap_err();
    assert_eq!(err, NetError::DimensionMismatch);
    // Too few rows.
    let err = NeuralNet::from_parts(2, 2, 1, F(0.2), vec![fv(&[0.1, 0.2])], vec![
        fv(&[0.5, 0.6]),
    ])
    .unwrap_err();
    assert_eq!(err, NetError::DimensionMismatch);
}

#[test]
fn classify_picks_the_strongest_output() {
    let net = small_net();
    let class = net.classify(&fv(&[0.9, 0.1])).unwrap();
    let out = net.query(&fv(&[0.9, 0.1])).unwrap();
    let expected = if out[0].0 >= out[1].0 { 0 } else { 1 };
    assert_eq!(class, expected);
}

#[test]
fn argmax_breaks_ties_by_lowest_index() {
    assert_eq!(argmax(&vec![1, 5, 5, 3]), 1);
    assert_eq!(argmax(&vec![7]), 0);
    assert_eq!(argmax(&vec![2, 2, 2]), 0);
    assert_eq!(argmax(&vec![0, 1, 9, 9, 8]), 2);
}

#[test]
fn make_target_is_hot_at_label_and_cold_elsewhere() {
    let t = make_target(3usize, 10usize, F(0.99), F(0.1));
    assert_eq!(t.len(), 10);
    for (i, v) in t.iter().enumerate() {
        if i == 3 {
            assert_eq!(*v, F(0.99));
        } else {
            assert_eq!(*v, F(0.1));
        }
    }
}

#[test]
fn serialize_produces_the_documented_frame() {
    let net = NeuralNet::from_parts(
        1,
        1,
        1,
        F(0.25),
        vec![fv(&[2.0])],
        vec![fv(&[-3.0])],
    )
    .unwrap();
    let words = serialize(&net_to_bits(&net));
    assert_eq!(
        words,
        vec![1, 1, 1, 0.25f64.to_bits(), 2.0f64.to_bits(), (-3.0f64).to_bits()]
    );
}

#[test]
fn serialization_round_trip_preserves_query() {
    let net = small_net();
    let words = serialize(&net_to_bits(&net));
    let restored: NeuralNet<F> = net_from_bits(&deserialize(&words).unwrap());
    assert_eq!(restored.input_nodes, net.input_nodes);
    assert_eq!(restored.hidden_nodes, net.hidden_nodes);
    assert_eq!(restored.output_nodes, net.output_nodes);
    let x = fv(&[0.37, 0.81]);
    let a = net.query(&x).unwrap();
    let b = restored.query(&x).unwrap();
    for (p, q) in a.iter().zip(b.iter()) {
        assert!((p.0 - q.0).abs() < 1e-9);
        assert_eq!(p.0.to_bits(), q.0.to_bits());
    }
}

#[test]
fn deserialize_rejects_malformed_streams() {
    // Too short for a header.
    assert_eq!(deserialize(&vec![1, 1, 1]).unwrap_err(), NetError::Encoding);
    // A zero layer size.
    assert_eq!(
        deserialize(&vec![1, 0, 1, 0, 0, 0]).unwrap_err(),
        NetError::Encoding
    );
    // Word count inconsistent with the declared sizes (needs 2 weights).
    assert_eq!(deserialize(&vec![1, 1, 1, 0, 7]).unwrap_err(), NetError::Encoding);
    // Trailing junk beyond the declared sizes.
    assert_eq!(
        deserialize(&vec![1, 1, 1, 0, 7, 8, 9]).unwrap_err(),
        NetError::Encoding
    );
}
