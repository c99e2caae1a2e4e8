use neural_network::fixed::{fx_add, fx_mul, fx_sub, FX_SCALE};
use neural_network::network::{Activation, Network, NnError};
use neural_network::utils::{mse, randomise1, randomise2, sigmoid, sigmoid_prime};

const HALF: i64 = FX_SCALE / 2;

fn xor_dataset() -> (Vec<Vec<i64>>, Vec<Vec<i64>>) {
    let one = FX_SCALE;
    let inputs = vec![vec![0, 0], vec![0, one], vec![one, 0], vec![one, one]];
    let targets = vec![vec![0], vec![one], vec![one], vec![0]];
    (inputs, targets)
}

#[test]
fn fixed_point_exact_values() {
    assert_eq!(fx_add(FX_SCALE, FX_SCALE), 2 * FX_SCALE);
    assert_eq!(fx_sub(FX_SCALE, 3 * FX_SCALE), -2 * FX_SCALE);
    // 1.0 * 1.0 == 1.0 and 0.5 * 0.5 == 0.25
    assert_eq!(fx_mul(FX_SCALE, FX_SCALE), FX_SCALE);
    assert_eq!(fx_mul(HALF, HALF), FX_SCALE / 4);
    // products truncate toward zero
    assert_eq!(fx_mul(1, 1), 0);
    assert_eq!(fx_mul(-1, 1), 0);
}

#[test]
fn fixed_point_saturates() {
    assert_eq!(fx_add(i64::MAX, 1), i64::MAX);
    assert_eq!(fx_add(i64::MIN, -1), i64::MIN);
    assert_eq!(fx_sub(i64::MIN, 1), i64::MIN);
    assert_eq!(fx_sub(i64::MAX, -1), i64::MAX);
    assert_eq!(fx_mul(i64::MAX, 2 * FX_SCALE), i64::MAX);
    assert_eq!(fx_mul(i64::MAX, -2 * FX_SCALE), i64::MIN);
    assert_eq!(fx_mul(i64::MIN, -2 * FX_SCALE), i64::MAX);
}

#[test]
fn sigmoid_exact_values() {
    // sigmoid(0) == 0.5
    assert_eq!(sigmoid(0), HALF);
    // sigmoid(1) uses the tabulated knot
    assert_eq!(sigmoid(FX_SCALE), 47911);
    // far tails are constant and strictly inside (0, 1)
    assert_eq!(sigmoid(5 * FX_SCALE), 65097);
    assert_eq!(sigmoid(100 * FX_SCALE), 65097);
    assert_eq!(sigmoid(-5 * FX_SCALE), FX_SCALE - 65097);
    assert_eq!(sigmoid(i64::MAX), 65097);
    assert_eq!(sigmoid(i64::MIN), FX_SCALE - 65097);
    // symmetry: sigmoid(-x) == 1 - sigmoid(x)
    assert_eq!(sigmoid(-FX_SCALE), FX_SCALE - 47911);
    for x in [-300000i64, -70000, -1, 0, 1, 12345, 300000] {
        let s = sigmoid(x);
        assert!(0 < s && s < FX_SCALE);
        assert_eq!(sigmoid(-x), FX_SCALE - s);
    }
}

#[test]
fn sigmoid_prime_exact_values() {
    // derivative at an activated value of 0.5 is 0.25
    assert_eq!(sigmoid_prime(HALF), FX_SCALE / 4);
    // derivative vanishes at the saturated ends
    assert_eq!(sigmoid_prime(0), 0);
    assert_eq!(sigmoid_prime(FX_SCALE), 0);
}

#[test]
fn mse_exact_values() {
    // a unit error on one output costs 1.0
    assert_eq!(mse(&vec![FX_SCALE], &vec![0]), FX_SCALE);
    // a half error costs 0.25
    assert_eq!(mse(&vec![HALF], &vec![0]), FX_SCALE / 4);
    // the mean over two outputs
    assert_eq!(mse(&vec![FX_SCALE, 0], &vec![0, 0]), HALF);
    assert_eq!(mse(&vec![FX_SCALE, FX_SCALE], &vec![FX_SCALE, FX_SCALE]), 0);
}

#[test]
fn randomise_fills_unit_range() {
    let mut v = vec![0i64; 64];
    randomise1(&mut v);
    assert_eq!(v.len(), 64);
    for x in &v {
        assert!(-FX_SCALE <= *x && *x < FX_SCALE);
    }
    let mut m = vec![vec![0i64; 7]; 5];
    randomise2(&mut m);
    assert_eq!(m.len(), 5);
    for row in &m {
        assert_eq!(row.len(), 7);
        for x in row {
            assert!(-FX_SCALE <= *x && *x < FX_SCALE);
        }
    }
}

#[test]
fn new_network_dimensions_and_ranges() {
    let shape = vec![2usize, 3, 1];
    let net = Network::new(shape.clone(), Activation::Sigmoid);
    assert_eq!(net.layers, 3);
    assert_eq!(net.shape, shape);
    assert_eq!(net.neurons.len(), 3);
    for (i, layer) in net.neurons.iter().enumerate() {
        assert_eq!(layer.len(), shape[i]);
        for v in layer {
            assert_eq!(*v, 0);
        }
    }
    assert_eq!(net.weights.len(), 2);
    assert_eq!(net.biases.len(), 2);
    for i in 0..2 {
        assert_eq!(net.weights[i].len(), shape[i]);
        for row in &net.weights[i] {
            assert_eq!(row.len(), shape[i + 1]);
            for w in row {
                assert!(-FX_SCALE <= *w && *w < FX_SCALE);
            }
        }
        assert_eq!(net.biases[i].len(), shape[i + 1]);
        for b in &net.biases[i] {
            assert!(-FX_SCALE <= *b && *b < FX_SCALE);
        }
    }
}

#[test]
fn feed_forward_is_deterministic() {
    let mut net = Network::new(vec![2, 3, 1], Activation::Sigmoid);
    let input = vec![FX_SCALE, 0];
    let out1 = net.feed_forward(&input).unwrap();
    let neurons1 = net.neurons.clone();
    let out2 = net.feed_forward(&input).unwrap();
    assert_eq!(out1, out2);
    assert_eq!(neurons1, net.neurons);
}

#[test]
fn feed_forward_output_length_and_range() {
    let mut net = Network::new(vec![2, 3, 2], Activation::Sigmoid);
    let out = net.feed_forward(&vec![FX_SCALE, FX_SCALE]).unwrap();
    let got = net.get_outputs();
    assert_eq!(out, got);
    assert_eq!(out.len(), 2);
    for v in &out {
        assert!(0 < *v && *v < FX_SCALE);
    }
}

#[test]
fn feed_forward_rejects_wrong_width() {
    let mut net = Network::new(vec![2, 3, 1], Activation::Sigmoid);
    let before_w = net.weights.clone();
    let r = net.feed_forward(&vec![0, 0, 0]);
    assert_eq!(r, Err(NnError::DimensionMismatch));
    assert_eq!(net.weights, before_w);
}

#[test]
fn backpropagate_zero_rate_changes_nothing() {
    let mut net = Network::new(vec![2, 3, 1], Activation::Sigmoid);
    let w0 = net.weights.clone();
    let b0 = net.biases.clone();
    let r = net.backpropagate(&vec![FX_SCALE, 0], &vec![FX_SCALE], 0);
    assert_eq!(r, Ok(()));
    assert_eq!(net.weights, w0);
    assert_eq!(net.biases, b0);
}

#[test]
fn backpropagate_rejects_wrong_widths() {
    let mut net = Network::new(vec![2, 3, 1], Activation::Sigmoid);
    assert_eq!(
        net.backpropagate(&vec![0], &vec![0], HALF),
        Err(NnError::DimensionMismatch)
    );
    assert_eq!(
        net.backpropagate(&vec![0, 0], &vec![0, 0], HALF),
        Err(NnError::DimensionMismatch)
    );
}

#[test]
fn get_cost_matches_mse_and_rejects_wrong_width() {
    let mut net = Network::new(vec![2, 3, 1], Activation::Sigmoid);
    net.feed_forward(&vec![FX_SCALE, 0]).unwrap();
    let out = net.get_outputs();
    assert_eq!(net.get_cost(&vec![0]), Ok(mse(&out, &vec![0])));
    assert_eq!(net.get_cost(&vec![0, 0]), Err(NnError::DimensionMismatch));
}

#[test]
fn repeated_backpropagation_decreases_cost() {
    let mut net = Network::new(vec![2, 2, 1], Activation::Sigmoid);
    let input = vec![FX_SCALE, 0];
    let target = vec![FX_SCALE];
    let rate = FX_SCALE / 4;
    net.feed_forward(&input).unwrap();
    let initial = net.get_cost(&target).unwrap();
    for _ in 0..200 {
        net.backpropagate(&input, &target, rate).unwrap();
    }
    net.feed_forward(&input).unwrap();
    let after = net.get_cost(&target).unwrap();
    assert!(after < initial, "cost {after} did not fall below {initial}");
}

#[test]
fn train_reports_one_cost_per_epoch() {
    let (inputs, targets) = xor_dataset();
    let mut net = Network::new(vec![2, 3, 1], Activation::Sigmoid);
    let costs = net.train(&inputs, &targets, HALF, 10).unwrap();
    assert_eq!(costs.len(), 10);
    for c in &costs {
        assert!(*c >= 0);
    }
}

#[test]
fn train_rejects_bad_datasets() {
    let mut net = Network::new(vec![2, 3, 1], Activation::Sigmoid);
    let empty_in: Vec<Vec<i64>> = Vec::new();
    let empty_tg: Vec<Vec<i64>> = Vec::new();
    assert_eq!(
        net.train(&empty_in, &empty_tg, HALF, 5),
        Err(NnError::DimensionMismatch)
    );
    let (inputs, _) = xor_dataset();
    let bad_targets = vec![vec![0], vec![0], vec![0], vec![0, 0]];
    assert_eq!(
        net.train(&inputs, &bad_targets, HALF, 5),
        Err(NnError::DimensionMismatch)
    );
}

#[test]
fn trains_exclusive_or() {
    let (inputs, targets) = xor_dataset();
    let lo = 3 * FX_SCALE / 10; // 0.3
    let hi = 7 * FX_SCALE / 10; // 0.7
    // Random initialization occasionally lands in a poor region; a few
    // restarts make the demonstration robust.
    let mut learned = false;
    for _ in 0..8 {
        let mut net = Network::new(vec![2, 3, 1], Activation::Sigmoid);
        net.train(&inputs, &targets, HALF, 4000).unwrap();
        let mut ok = true;
        for (input, target) in inputs.iter().zip(targets.iter()) {
            let out = net.feed_forward(input).unwrap();
            if target[0] == 0 {
                ok = ok && out[0] < lo;
            } else {
                ok = ok && out[0] > hi;
            }
        }
        if ok {
            learned = true;
            break;
        }
    }
    assert!(learned, "network failed to fit exclusive-or after 8 restarts");
}

#[test]
fn highest_output_index_first_strict_maximum() {
    let mut net = Network::new(vec![1, 3], Activation::Sigmoid);
    // 0.2, 0.9, 0.1 -> index 1
    net.neurons[1] = vec![13107, 58982, 6554];
    assert_eq!(net.get_highest_output_index(), 1);
    // 0.9, 0.2, 0.9: the tie keeps the earlier index
    net.neurons[1] = vec![58982, 13107, 58982];
    assert_eq!(net.get_highest_output_index(), 0);
    // no activation above the zero baseline gives index 0
    net.neurons[1] = vec![-5, -10, 0];
    assert_eq!(net.get_highest_output_index(), 0);
}

#[test]
fn feed_forward_matches_affine_map_for_identity() {
    let mut net = Network::new(vec![2, 1], Activation::Identity);
    net.weights[0] = vec![vec![HALF], vec![FX_SCALE]];
    net.biases[0] = vec![FX_SCALE / 4];
    let out = net.feed_forward(&vec![FX_SCALE, HALF]).unwrap();
    // 1.0 * 0.5 + 0.5 * 1.0 + 0.25 == 1.25
    assert_eq!(out, vec![FX_SCALE + FX_SCALE / 4]);
}

#[test]
fn feed_forward_applies_sigmoid_to_weighted_sum() {
    let mut net = Network::new(vec![1, 1], Activation::Sigmoid);
    net.weights[0] = vec![vec![FX_SCALE]];
    net.biases[0] = vec![0];
    assert_eq!(net.feed_forward(&vec![0]).unwrap(), vec![HALF]);
    assert_eq!(net.feed_forward(&vec![FX_SCALE]).unwrap(), vec![sigmoid(FX_SCALE)]);
}

#[test]
fn backpropagate_updates_match_the_formulas() {
    let mut net = Network::new(vec![1, 1], Activation::Sigmoid);
    net.weights[0] = vec![vec![FX_SCALE]];
    net.biases[0] = vec![0];
    net.backpropagate(&vec![FX_SCALE], &vec![FX_SCALE], FX_SCALE).unwrap();
    // out = sigmoid(1.0) = 47911; delta = (1.0 - out) * out * (1.0 - out)
    assert_eq!(net.neurons[1], vec![47911]);
    let delta = fx_mul(fx_sub(FX_SCALE, 47911), sigmoid_prime(47911));
    assert_eq!(delta, 3465);
    assert_eq!(net.weights[0], vec![vec![FX_SCALE + delta]]);
    assert_eq!(net.biases[0], vec![delta]);
}

#[test]
fn backpropagate_propagates_through_hidden_layer() {
    let mut net = Network::new(vec![1, 1, 1], Activation::Identity);
    net.weights[0] = vec![vec![HALF]];
    net.weights[1] = vec![vec![HALF]];
    net.biases[0] = vec![0];
    net.biases[1] = vec![0];
    net.backpropagate(&vec![FX_SCALE], &vec![FX_SCALE], FX_SCALE).unwrap();
    // forward: a1 = 0.5, a2 = 0.25; output delta = 0.75; hidden delta
    // flows back through the weight 0.5: 0.375
    assert_eq!(net.weights[1], vec![vec![HALF + 24576]]);
    assert_eq!(net.biases[1], vec![49152]);
    assert_eq!(net.weights[0], vec![vec![HALF + 24576]]);
    assert_eq!(net.biases[0], vec![24576]);
}
