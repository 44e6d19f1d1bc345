use neural_net::activation::Activation;
use neural_net::error::NetworkError;
use neural_net::matrix::from;
use neural_net::neural_network::Network;

type Sigmoid = Activation<fn(f64) -> f64, fn(f64) -> f64>;

fn sigmoid(x: f64) -> f64 {
    1.0 / (1.0 + std::f64::consts::E.powf(-x))
}

fn sigmoid_derivative(y: f64) -> f64 {
    y * (1.0 - y)
}

fn sigmoid_activation() -> Sigmoid {
    Activation { function: sigmoid, derivative: sigmoid_derivative }
}

fn identity(x: f64) -> f64 {
    x
}

fn one(_x: f64) -> f64 {
    1.0
}

#[test]
fn neural_network_test_new() {
    let layers = vec![2, 3, 1];
    let learning_rate = 0.1;
    let activation = sigmoid_activation();
    let network = Network::new(layers, learning_rate, activation).unwrap();

    assert_eq!(network.layers, vec![2, 3, 1]);
    assert_eq!(network.learning_rate, 0.1);
}

#[test]
fn test_feed_forward() {
    let layers = vec![2, 3, 1];
    let learning_rate = 0.1;
    let activation = sigmoid_activation();
    let mut network = Network::new(layers, learning_rate, activation).unwrap();

    let inputs = vec![0.1, 0.2];
    let outputs = network.feed_forward(inputs).unwrap();

    assert_eq!(outputs.len(), 1);
}

#[test]
fn test_back_propogate() {
    let layers = vec![2, 3, 1];
    let learning_rate = 0.1;
    let activation = sigmoid_activation();
    let mut network = Network::new(layers, learning_rate, activation).unwrap();

    let inputs = vec![0.1, 0.2];
    let outputs = network.feed_forward(inputs).unwrap();
    let targets = vec![0.3];
    network.back_propogate(outputs, targets).unwrap();

    assert_eq!(network.weights[0].data.len(), 3);
    assert_eq!(network.weights[0].data[0].len(), 2);
    assert_eq!(network.weights[0].data[1].len(), 2);
    assert_eq!(network.weights[0].data[2].len(), 2);
    assert_eq!(network.biases[0].data.len(), 3);
    assert_eq!(network.biases[0].data[0].len(), 1);
    assert_eq!(network.biases[0].data[1].len(), 1);
    assert_eq!(network.biases[0].data[2].len(), 1);
}

#[test]
fn test_train() {
    let layers = vec![2, 3, 1];
    let learning_rate = 0.1;
    let activation = sigmoid_activation();
    let mut network = Network::new(layers, learning_rate, activation).unwrap();

    let inputs = vec![vec![0.1, 0.2], vec![0.3, 0.4]];
    let targets = vec![vec![0.3], vec![0.5]];
    network.train(inputs, targets, 100).unwrap();

    assert_eq!(network.weights[0].data.len(), 3);
    assert_eq!(network.weights[0].data[0].len(), 2);
    assert_eq!(network.weights[0].data[1].len(), 2);
    assert_eq!(network.weights[0].data[2].len(), 2);
    assert_eq!(network.biases[0].data.len(), 3);
    assert_eq!(network.biases[0].data[0].len(), 1);
    assert_eq!(network.biases[0].data[1].len(), 1);
    assert_eq!(network.biases[0].data[2].len(), 1);
}

#[test]
fn test_train_panic() {
    let layers = vec![2, 3, 1];
    let learning_rate = 0.1;
    let activation = sigmoid_activation();
    let mut network = Network::new(layers, learning_rate, activation).unwrap();

    let inputs = vec![vec![0.1, 0.2], vec![0.3, 0.4]];
    let targets = vec![vec![0.3]];
    let weights_before = network.weights[0].data.clone();
    assert_eq!(
        network.train(inputs, targets, 100),
        Err(NetworkError::DatasetSizeMismatch)
    );
    assert_eq!(network.weights[0].data, weights_before);
}

#[test]
fn test_feed_forward_panic() {
    let layers = vec![2, 3, 1];
    let learning_rate = 0.1;
    let activation = sigmoid_activation();
    let mut network = Network::new(layers, learning_rate, activation).unwrap();

    let inputs = vec![0.1];
    assert_eq!(network.feed_forward(inputs), Err(NetworkError::InputSizeMismatch));
}

#[test]
fn test_back_propogate_panic() {
    let layers = vec![2, 3, 1];
    let learning_rate = 0.1;
    let activation = sigmoid_activation();
    let mut network = Network::new(layers, learning_rate, activation).unwrap();

    let inputs = vec![0.1, 0.2];
    let outputs = network.feed_forward(inputs).unwrap();
    let targets = vec![0.3, 0.4];
    assert_eq!(
        network.back_propogate(outputs, targets),
        Err(NetworkError::TargetSizeMismatch)
    );
}

#[test]
fn new_refuses_fewer_than_two_layers() {
    assert!(matches!(
        Network::new(vec![3], 0.1, sigmoid_activation()),
        Err(NetworkError::ShapeMismatch)
    ));
    assert!(matches!(
        Network::new(vec![], 0.1, sigmoid_activation()),
        Err(NetworkError::ShapeMismatch)
    ));
}

#[test]
fn new_shapes_weights_and_biases() {
    let network = Network::new(vec![4, 3, 2], 0.5, sigmoid_activation()).unwrap();
    assert_eq!(network.weights.len(), 2);
    assert_eq!((network.weights[0].rows, network.weights[0].cols), (3, 4));
    assert_eq!((network.weights[1].rows, network.weights[1].cols), (2, 3));
    assert_eq!((network.biases[0].rows, network.biases[0].cols), (3, 1));
    assert_eq!((network.biases[1].rows, network.biases[1].cols), (2, 1));
    assert!(network.data.is_empty());
    for w in &network.weights {
        for row in &w.data {
            for x in row {
                assert!(*x >= -1.0 && *x < 1.0);
            }
        }
    }
}

fn linear_network(w: f64, b: f64, rate: f64) -> Network<f64, fn(f64) -> f64, fn(f64) -> f64> {
    Network {
        layers: vec![1, 1],
        weights: vec![from(vec![vec![w]]).unwrap()],
        biases: vec![from(vec![vec![b]]).unwrap()],
        data: vec![],
        learning_rate: rate,
        activation: Activation { function: identity, derivative: one },
    }
}

#[test]
fn feed_forward_computes_each_layer() {
    let mut network = linear_network(2.0, 1.0, 0.5);
    assert_eq!(network.feed_forward(vec![3.0]).unwrap(), vec![7.0]);
    assert_eq!(network.data.len(), 2);
    assert_eq!(network.data[0].data, vec![vec![3.0]]);
    assert_eq!(network.data[1].data, vec![vec![7.0]]);
}

#[test]
fn back_propogate_takes_one_gradient_step() {
    let mut network = linear_network(2.0, 1.0, 0.5);
    let outputs = network.feed_forward(vec![3.0]).unwrap();
    network.back_propogate(outputs, vec![10.0]).unwrap();
    // error 3, derivative 1, gradient 0.5 * 3 = 1.5
    assert_eq!(network.weights[0].data, vec![vec![6.5]]);
    assert_eq!(network.biases[0].data, vec![vec![2.5]]);
}

#[test]
fn back_propogate_passes_error_through_weights_before_update() {
    let mut network: Network<f64, fn(f64) -> f64, fn(f64) -> f64> = Network {
        layers: vec![1, 1, 1],
        weights: vec![from(vec![vec![1.0]]).unwrap(), from(vec![vec![2.0]]).unwrap()],
        biases: vec![from(vec![vec![0.0]]).unwrap(), from(vec![vec![0.0]]).unwrap()],
        data: vec![],
        learning_rate: 1.0,
        activation: Activation { function: identity, derivative: one },
    };
    let outputs = network.feed_forward(vec![1.0]).unwrap();
    assert_eq!(outputs, vec![2.0]);
    network.back_propogate(outputs, vec![3.0]).unwrap();
    // last layer: error 1, gradient 1, w1 = 2 + 1 * 1 = 3; error passed down = 2 * 1 = 2
    assert_eq!(network.weights[1].data, vec![vec![3.0]]);
    // first layer: gradient 1 * 2 = 2, w0 = 1 + 2 * 1 = 3, b0 = 0 + 2
    assert_eq!(network.weights[0].data, vec![vec![3.0]]);
    assert_eq!(network.biases[0].data, vec![vec![2.0]]);
}

#[test]
fn back_propogate_refuses_outputs_of_wrong_length() {
    let mut network = linear_network(2.0, 1.0, 0.5);
    network.feed_forward(vec![3.0]).unwrap();
    assert_eq!(
        network.back_propogate(vec![1.0, 2.0], vec![10.0]),
        Err(NetworkError::ShapeMismatch)
    );
    assert_eq!(network.weights[0].data, vec![vec![2.0]]);
}

#[test]
fn train_reports_first_example_that_does_not_fit() {
    let mut network = Network::new(vec![2, 3, 1], 0.1, sigmoid_activation()).unwrap();
    let inputs = vec![vec![0.1, 0.2], vec![0.3], vec![0.5, 0.6]];
    let targets = vec![vec![0.3], vec![0.5], vec![0.1, 0.2]];
    assert_eq!(network.train(inputs, targets, 3), Err(NetworkError::InputSizeMismatch));

    let inputs = vec![vec![0.1, 0.2], vec![0.3, 0.4]];
    let targets = vec![vec![0.3], vec![0.5, 0.6]];
    assert_eq!(network.train(inputs, targets, 3), Err(NetworkError::TargetSizeMismatch));
}

#[test]
fn train_runs_epochs_plus_one_passes() {
    let mut once = linear_network(2.0, 1.0, 0.125);
    once.train(vec![vec![1.0]], vec![vec![5.0]], 0).unwrap();
    let mut by_hand = linear_network(2.0, 1.0, 0.125);
    let out = by_hand.feed_forward(vec![1.0]).unwrap();
    by_hand.back_propogate(out, vec![5.0]).unwrap();
    assert_eq!(once.weights[0].data, by_hand.weights[0].data);
    assert_eq!(once.biases[0].data, by_hand.biases[0].data);

    let mut twice = linear_network(2.0, 1.0, 0.125);
    twice.train(vec![vec![1.0]], vec![vec![5.0]], 1).unwrap();
    let out = by_hand.feed_forward(vec![1.0]).unwrap();
    by_hand.back_propogate(out, vec![5.0]).unwrap();
    assert_eq!(twice.weights[0].data, by_hand.weights[0].data);
}

fn xor_error(network: &mut Network<f64, fn(f64) -> f64, fn(f64) -> f64>) -> f64 {
    let inputs = [[0.0, 0.0], [0.0, 1.0], [1.0, 0.0], [1.0, 1.0]];
    let targets = [0.0, 1.0, 1.0, 0.0];
    let mut worst: f64 = 0.0;
    for (x, t) in inputs.iter().zip(targets.iter()) {
        let out = network.feed_forward(x.to_vec()).unwrap();
        let e = (out[0] - t) * (out[0] - t);
        worst = worst.max(e);
    }
    worst
}

#[test]
fn training_learns_xor() {
    let inputs = vec![vec![0.0, 0.0], vec![0.0, 1.0], vec![1.0, 0.0], vec![1.0, 1.0]];
    let targets = vec![vec![0.0], vec![1.0], vec![1.0], vec![0.0]];
    // a random start can land in a poor local minimum, so a few fresh networks are tried
    let mut learned = false;
    for _ in 0..5 {
        let mut network = Network::new(vec![2, 3, 1], 0.5, sigmoid_activation()).unwrap();
        network.train(inputs.clone(), targets.clone(), 10000).unwrap();
        if xor_error(&mut network) < 0.05 {
            learned = true;
            break;
        }
    }
    assert!(learned);
}

#[test]
fn train_keeps_updates_made_before_a_misfit() {
    let mut trained = linear_network(2.0, 1.0, 0.125);
    let inputs = vec![vec![1.0], vec![1.0, 2.0]];
    let targets = vec![vec![5.0], vec![5.0]];
    assert_eq!(trained.train(inputs, targets, 4), Err(NetworkError::InputSizeMismatch));

    let mut by_hand = linear_network(2.0, 1.0, 0.125);
    let out = by_hand.feed_forward(vec![1.0]).unwrap();
    by_hand.back_propogate(out, vec![5.0]).unwrap();
    // error 2, gradient 0.25: w = 2 + 0.25, b = 1 + 0.25
    assert_eq!(by_hand.weights[0].data, vec![vec![2.25]]);
    assert_eq!(trained.weights[0].data, by_hand.weights[0].data);
    assert_eq!(trained.biases[0].data, vec![vec![1.25]]);
}
