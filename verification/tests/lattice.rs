use pathtrace::perlin::{Perlin, LATTICE};

fn ramp() -> Vec<u32> {
    (0..256).collect()
}

#[test]
fn new_wants_one_sample_per_lattice_point() {
    assert_eq!(LATTICE, 256);
    assert!(Perlin::new(ramp()).is_some());
    assert!(Perlin::new(Vec::new()).is_none());
    assert!(Perlin::new((0..255).collect()).is_none());
    assert!(Perlin::new((0..257).collect()).is_none());
}

#[test]
fn generate_perm_is_a_permutation() {
    let mut p = Perlin::generate_perm();
    assert_eq!(p.len(), 256);
    p.sort();
    assert_eq!(p, ramp());
}

#[test]
fn generate_perm_shuffles() {
    let shuffled = (0..4).any(|_| Perlin::generate_perm() != ramp());
    assert!(shuffled);
}

#[test]
fn lattice_index_stays_on_the_lattice() {
    let lattice = Perlin::new(ramp()).unwrap();
    for i in [0usize, 1, 255, 256, 257, 1000, usize::MAX] {
        for j in [0usize, 3, 255, 4096] {
            for k in [0usize, 77, usize::MAX - 1] {
                assert!(lattice.lattice_index(i, j, k) < 256);
            }
        }
    }
}

#[test]
fn lattice_index_reads_the_low_eight_bits() {
    let lattice = Perlin::new(ramp()).unwrap();
    assert_eq!(lattice.lattice_index(256 + 9, 512 + 4, 1024 + 200), lattice.lattice_index(9, 4, 200));
    assert_eq!(lattice.lattice_index(usize::MAX, 0, 0), lattice.lattice_index(255, 0, 0));
}

#[test]
fn each_axis_reaches_every_lattice_point_once() {
    let lattice = Perlin::new(ramp()).unwrap();
    let mut along_x: Vec<usize> = (0..256).map(|i| lattice.lattice_index(i, 5, 9)).collect();
    let mut along_y: Vec<usize> = (0..256).map(|j| lattice.lattice_index(5, j, 9)).collect();
    let mut along_z: Vec<usize> = (0..256).map(|k| lattice.lattice_index(5, 9, k)).collect();
    along_x.sort();
    along_y.sort();
    along_z.sort();
    let all: Vec<usize> = (0..256).collect();
    assert_eq!(along_x, all);
    assert_eq!(along_y, all);
    assert_eq!(along_z, all);
}

#[test]
fn noise_is_the_sample_at_the_lattice_index() {
    let samples: Vec<u32> = (0..256u32).map(|i| i * 3 + 1).collect();
    let lattice = Perlin::new(samples.clone()).unwrap();
    for (i, j, k) in [(0usize, 0usize, 0usize), (1, 2, 3), (255, 255, 255), (300, 7, 99)] {
        assert_eq!(lattice.noise(i, j, k), samples[lattice.lattice_index(i, j, k)]);
    }
}

#[test]
fn a_lattice_does_not_keep_the_given_order() {
    let lattice = Perlin::new(ramp()).unwrap();
    let moved = (0..256usize).any(|i| {
        lattice.lattice_index(i, 0, 0) != i
            || lattice.lattice_index(0, i, 0) != i
            || lattice.lattice_index(0, 0, i) != i
    });
    assert!(moved);
}
