use mlpnet::classify::{one_hot, predict};
use mlpnet::label::extract_label;
use mlpnet::net::{forward_test, Network};
use mlpnet::NetError;

fn bits(x: f32) -> u32 {
    x.to_bits()
}

fn val(c: u32) -> f32 {
    f32::from_bits(c)
}

/// Weight codes for a `[3, 2, 1]` topology: 2*3 + 1*2 = 8 values.
fn demo_net() -> Network {
    let sizes = vec![3usize, 2, 1];
    let codes: Vec<u32> = vec![
        bits(0.1),
        bits(-0.2),
        bits(0.3),
        bits(0.4),
        bits(-0.5),
        bits(0.6),
        bits(0.7),
        bits(-0.8),
    ];
    Network::new(&sizes, &codes)
}

#[test]
fn test_new_topology() {
    let net = demo_net();
    assert_eq!(net.layers.len(), 2);
    assert_eq!(net.layers[0].neurons.len(), 2);
    assert_eq!(net.layers[1].neurons.len(), 1);
    for n in &net.layers[0].neurons {
        assert_eq!(n.weights.len(), 3);
        assert_eq!(val(n.bias), 0.0);
        assert_eq!(val(n.output), 0.0);
        assert_eq!(val(n.delta), 0.0);
    }
    assert_eq!(net.layers[1].neurons[0].weights.len(), 2);
    assert_eq!(val(net.layers[0].neurons[0].weights[1]), -0.2);
    assert_eq!(val(net.layers[1].neurons[0].weights[1]), -0.8);
}

#[test]
fn test_forward_zero_input_gives_zero_output() {
    let mut net = demo_net();
    let out = net.forward(vec![0u32; 3]).unwrap();
    assert_eq!(out.len(), 1);
    for c in out {
        assert_eq!(c, 0u32);
    }
}

#[test]
fn test_forward_single_neuron_is_relu() {
    let sizes = vec![1usize, 1];
    let codes = vec![bits(1.0)];
    let mut net = Network::new(&sizes, &codes);
    for x in [-5.0f32, 0.0, 3.2] {
        let out = net.forward(vec![bits(x)]).unwrap();
        assert_eq!(out.len(), 1);
        assert_eq!(val(out[0]), x.max(0.0));
    }
}

#[test]
fn test_forward_dimension_mismatch() {
    let mut net = demo_net();
    assert_eq!(net.forward(vec![0u32; 2]), Err(NetError::DimensionMismatch));
    assert_eq!(net.forward(vec![0u32; 4]), Err(NetError::DimensionMismatch));
}

#[test]
fn test_forward_test_runs_inference() {
    let mut net = demo_net();
    let image = vec![bits(1.0), bits(1.0), bits(1.0)];
    let direct = {
        let mut copy = demo_net();
        copy.forward(image.clone()).unwrap()
    };
    let shown = forward_test(&mut net, image).unwrap();
    assert_eq!(shown, direct);
}

#[test]
fn test_train_mse_exact_value() {
    // One layer of two neurons with weight 1.0 each: input [1.0] gives
    // outputs [1.0, 1.0]; against targets [0.0, 0.0] the squared errors sum
    // to 2.0 and the mean over the two outputs is exactly 1.0.
    let sizes = vec![1usize, 2];
    let codes = vec![bits(1.0), bits(1.0)];
    let mut net = Network::new(&sizes, &codes);
    net.forward(vec![bits(1.0)]).unwrap();
    let mse = net
        .train(vec![bits(1.0)], vec![bits(0.0), bits(0.0)], bits(0.0))
        .unwrap();
    assert_eq!(val(mse), 1.0);
}

#[test]
fn test_train_decreases_mse() {
    // A [2, 2, 1] network, fixed weights, one sample: after a gradient step
    // with a small positive learning rate the mean squared error shrinks.
    let sizes = vec![2usize, 2, 1];
    let codes = vec![
        bits(0.5),
        bits(0.5),
        bits(0.5),
        bits(0.5),
        bits(0.5),
        bits(0.5),
    ];
    let mut net = Network::new(&sizes, &codes);
    let input = vec![bits(1.0), bits(0.5)];
    let target = vec![bits(1.0)];
    let lr = bits(0.01);
    net.forward(input.clone()).unwrap();
    let mse1 = net.train(input.clone(), target.clone(), lr).unwrap();
    net.forward(input.clone()).unwrap();
    let mse2 = net.train(input.clone(), target.clone(), lr).unwrap();
    assert!(val(mse1) > 0.0);
    assert!(val(mse2) < val(mse1));
}

#[test]
fn test_train_dimension_mismatch() {
    let mut net = demo_net();
    let lr = bits(0.01);
    assert_eq!(
        net.train(vec![0u32; 3], vec![0u32; 2], lr),
        Err(NetError::DimensionMismatch)
    );
    assert_eq!(
        net.train(vec![0u32; 2], vec![0u32; 1], lr),
        Err(NetError::DimensionMismatch)
    );
}

#[test]
fn test_one_hot_encoding() {
    let v = one_hot(3, 10).unwrap();
    assert_eq!(v.len(), 10);
    for (k, c) in v.iter().enumerate() {
        if k == 3 {
            assert_eq!(val(*c), 1.0);
        } else {
            assert_eq!(val(*c), 0.0);
        }
    }
    assert_eq!(one_hot(10, 10), Err(NetError::DimensionMismatch));
    assert_eq!(one_hot(11, 10), Err(NetError::DimensionMismatch));
}

#[test]
fn test_predict_tie_breaks_to_first() {
    let out = vec![bits(0.5), bits(0.5), bits(0.2)];
    assert_eq!(predict(&out), Some(0));
}

#[test]
fn test_predict_picks_maximum() {
    let out = vec![bits(0.1), bits(0.0), bits(2.5), bits(2.4)];
    assert_eq!(predict(&out), Some(2));
    assert_eq!(predict(&Vec::new()), None);
}

#[test]
fn test_extract_label_digits() {
    assert_eq!(extract_label("7_0001.png"), Ok(7));
    assert_eq!(extract_label("123_rest"), Ok(123));
    assert_eq!(extract_label("42"), Ok(42));
}

#[test]
fn test_extract_label_rejects_malformed() {
    assert_eq!(extract_label("x_0001.png"), Err(NetError::LabelParseError));
    assert_eq!(extract_label("_0001.png"), Err(NetError::LabelParseError));
    assert_eq!(extract_label(""), Err(NetError::LabelParseError));
    assert_eq!(
        extract_label("99999999999999999999999999_x"),
        Err(NetError::LabelParseError)
    );
}
