//! Basic interface and happy-path exercise: a hundred nodes all updating
//! against each other.

use vivaldi_nc::NetworkCoordinate;

const NUM_NODES: usize = 100;

#[test]
fn basic_usage() {
    let mut nc: Vec<NetworkCoordinate<2>> =
        (0..NUM_NODES).map(|_| NetworkCoordinate::<2>::new()).collect();
    for i in 0..NUM_NODES {
        for j in 0..NUM_NODES {
            if i == j {
                continue;
            }
            let other = nc[j].clone();
            nc[i].update(&other, 100_000_000);
        }
    }
}
