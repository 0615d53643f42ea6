use avx2_kernels::instructs::perms::{interleave, interleave_partitions, riffle, riffle_partitions};

fn seq(n: usize) -> Vec<usize> {
    (0..n).collect()
}

#[test]
fn interleave_swaps_odd_positions_with_second_half() {
    let mut v = seq(8);
    interleave(&mut v);
    assert_eq!(v, vec![0, 5, 2, 7, 4, 1, 6, 3]);
}

#[test]
fn interleave_odd_length_keeps_last() {
    let mut v = seq(9);
    interleave(&mut v);
    assert_eq!(v, vec![0, 5, 2, 7, 4, 1, 6, 3, 8]);
}

#[test]
fn interleave_short_inputs_unchanged() {
    for n in 0..4 {
        let mut v = seq(n);
        interleave(&mut v);
        assert_eq!(v, seq(n));
    }
}

#[test]
fn interleave_twice_restores() {
    for n in 0..20 {
        let mut v = seq(n);
        interleave(&mut v);
        interleave(&mut v);
        assert_eq!(v, seq(n));
    }
}

#[test]
fn riffle_eight_is_perfect_shuffle() {
    let mut v = seq(8);
    riffle(&mut v);
    assert_eq!(v, vec![0, 4, 1, 5, 2, 6, 3, 7]);
}

#[test]
fn riffle_nine_follows_doubling_chains() {
    let mut v = seq(9);
    riffle(&mut v);
    assert_eq!(v, vec![4, 0, 1, 6, 2, 5, 3, 7, 8]);
}

#[test]
fn riffle_tiny_inputs_unchanged() {
    let mut one = seq(1);
    riffle(&mut one);
    assert_eq!(one, seq(1));
    let mut two = seq(2);
    riffle(&mut two);
    assert_eq!(two, seq(2));
}

#[test]
fn riffle_sixty_five_prefix() {
    let mut v = seq(65);
    riffle(&mut v);
    assert_eq!(&v[..12], &[32, 0, 1, 48, 2, 40, 3, 56, 4, 36, 5, 44]);
}

#[test]
fn riffle_only_permutes() {
    for n in 1..=65 {
        let mut v = seq(n);
        riffle(&mut v);
        assert_eq!(v[n - 1], n - 1);
        let mut sorted = v.clone();
        sorted.sort();
        assert_eq!(sorted, seq(n));
    }
}

#[test]
fn riffle_depends_only_on_length() {
    let mut idx = seq(12);
    riffle(&mut idx);
    let data: Vec<char> = "abcdefghijkl".chars().collect();
    let mut shuffled = data.clone();
    riffle(&mut shuffled);
    let expected: Vec<char> = idx.iter().map(|&i| data[i]).collect();
    assert_eq!(shuffled, expected);
}

#[test]
fn interleave_partitions_blocks_and_tail() {
    let mut v = seq(17);
    interleave_partitions(&mut v, 2);
    assert_eq!(v, vec![0, 5, 2, 7, 4, 1, 6, 3, 8, 13, 10, 15, 12, 9, 14, 11, 16]);
    let mut w = seq(10);
    interleave_partitions(&mut w, 3);
    assert_eq!(w, seq(10));
}

#[test]
fn riffle_partitions_blocks_and_tail() {
    let mut v = seq(17);
    riffle_partitions(&mut v, 2);
    assert_eq!(v, vec![0, 4, 1, 5, 2, 6, 3, 7, 8, 12, 9, 13, 10, 14, 11, 15, 16]);
    let mut w = seq(10);
    riffle_partitions(&mut w, 3);
    assert_eq!(w, vec![1, 0, 2, 4, 3, 5, 7, 6, 8, 9]);
}

#[test]
fn riffles_of_power_of_two_restore() {
    for j in 1..=6u32 {
        let n = 1usize << j;
        let mut v = seq(n);
        for _ in 0..j {
            riffle(&mut v);
        }
        assert_eq!(v, seq(n), "2^{} elements", j);
    }
}

#[test]
fn riffle_even_lengths_are_out_shuffles() {
    for n in (2..=64).step_by(2) {
        let mut v = seq(n);
        riffle(&mut v);
        let expected: Vec<usize> = (0..n).map(|j| if j % 2 == 0 { j / 2 } else { n / 2 + j / 2 }).collect();
        assert_eq!(v, expected);
    }
}

#[test]
fn interleave_partitions_twice_restores() {
    for n in 0..30 {
        for p in 1..6 {
            let mut v = seq(n);
            interleave_partitions(&mut v, p);
            interleave_partitions(&mut v, p);
            assert_eq!(v, seq(n));
        }
    }
}
