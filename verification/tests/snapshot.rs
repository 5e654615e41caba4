use mlpnet::codec::{load, save};
use mlpnet::net::Network;
use mlpnet::NetError;

fn bits(x: f32) -> u32 {
    x.to_bits()
}

fn trained_net() -> Network {
    let sizes = vec![2usize, 2, 1];
    let codes = vec![
        bits(0.25),
        bits(-0.75),
        bits(0.5),
        bits(1.5),
        bits(-0.125),
        bits(2.0),
    ];
    let mut net = Network::new(&sizes, &codes);
    let input = vec![bits(0.5), bits(1.0)];
    net.forward(input.clone()).unwrap();
    net.train(input, vec![bits(1.0)], bits(0.05)).unwrap();
    net
}

fn assert_same(a: &Network, b: &Network) {
    assert_eq!(a.layers.len(), b.layers.len());
    for (la, lb) in a.layers.iter().zip(b.layers.iter()) {
        assert_eq!(la.neurons.len(), lb.neurons.len());
        for (na, nb) in la.neurons.iter().zip(lb.neurons.iter()) {
            assert_eq!(na.weights, nb.weights);
            assert_eq!(na.bias, nb.bias);
            assert_eq!(na.output, nb.output);
            assert_eq!(na.delta, nb.delta);
        }
    }
}

#[test]
fn test_snapshot_roundtrip() {
    let net = trained_net();
    let out = save(&net);
    let back = load(&out).unwrap();
    assert_same(&net, &back);
}

#[test]
fn test_snapshot_roundtrip_fresh() {
    let sizes = vec![3usize, 2];
    let codes = vec![
        bits(0.1),
        bits(0.2),
        bits(0.3),
        bits(-0.1),
        bits(-0.2),
        bits(-0.3),
    ];
    let net = Network::new(&sizes, &codes);
    let back = load(&save(&net)).unwrap();
    assert_same(&net, &back);
}

#[test]
fn test_snapshot_is_text() {
    let out = save(&trained_net());
    assert_eq!(out.len() % 9, 0);
    for chunk in out.chunks(9) {
        for b in &chunk[..8] {
            assert!(b.is_ascii_hexdigit());
        }
        assert_eq!(chunk[8], b'\n');
    }
}

#[test]
fn test_load_rejects_garbage() {
    assert!(matches!(load(&Vec::new()), Err(NetError::PersistenceError)));
    assert!(matches!(
        load(&b"not a snapshot".to_vec()),
        Err(NetError::PersistenceError)
    ));
    let mut out = save(&trained_net());
    out.push(b'0');
    assert!(matches!(load(&out), Err(NetError::PersistenceError)));
}

#[test]
fn test_load_rejects_uppercase_digits() {
    // The canonical form is lowercase: 0.1 renders with letter digits.
    let sizes = vec![1usize, 1];
    let codes = vec![0.1f32.to_bits()];
    let mut upper = save(&Network::new(&sizes, &codes));
    let mut changed = false;
    for b in upper.iter_mut() {
        if b.is_ascii_lowercase() {
            *b = b.to_ascii_uppercase();
            changed = true;
        }
    }
    assert!(changed);
    assert!(matches!(load(&upper), Err(NetError::PersistenceError)));
}

#[test]
fn test_load_rejects_truncation() {
    let out = save(&trained_net());
    let cut = out[..out.len() - 9].to_vec();
    assert!(matches!(load(&cut), Err(NetError::PersistenceError)));
}
