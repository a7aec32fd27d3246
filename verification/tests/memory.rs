use snowflake::memory::{memcmp, memcpy, memmove, memset};

#[test]
fn memmove_forward_overlap() {
    let mut m: Vec<u8> = (0..20).collect();
    assert_eq!(memmove(&mut m, 0, 2, 11), 0);
    let mut expected: Vec<u8> = (2..13).collect();
    expected.extend(11..20);
    assert_eq!(m, expected);
}

#[test]
fn memmove_backward_whole_words() {
    let mut m: Vec<u8> = (0..20).collect();
    memmove(&mut m, 2, 0, 16);
    let mut expected: Vec<u8> = vec![0, 1];
    expected.extend(0..16);
    expected.extend(18..20);
    assert_eq!(m, expected);
}

#[test]
fn memmove_disjoint() {
    let mut m: Vec<u8> = (0..20).collect();
    memmove(&mut m, 10, 0, 9);
    let mut expected: Vec<u8> = (0..10).collect();
    expected.extend(0..9);
    expected.push(19);
    assert_eq!(m, expected);
}

#[test]
fn memmove_backward_overlap_with_tail() {
    // the word is copied first, and the tail byte then reads its source
    // after the word copy wrote there
    let mut m: Vec<u8> = (0..12).collect();
    memmove(&mut m, 1, 0, 9);
    assert_eq!(m, vec![0, 0, 1, 2, 3, 4, 5, 6, 7, 7, 10, 11]);
}

#[test]
fn memcpy_and_memset() {
    let mut m: Vec<u8> = (0..8).collect();
    memcpy(&mut m, 4, 0, 3);
    assert_eq!(m, vec![0, 1, 2, 3, 0, 1, 2, 7]);
    memset(&mut m, 1, 9, 2);
    assert_eq!(m, vec![0, 9, 9, 3, 0, 1, 2, 7]);
}

#[test]
fn memcmp_scans_while_bytes_differ() {
    let m: Vec<u8> = vec![1, 2, 3, 9, 5, 6];
    // bytes 0..3 vs 3..6: (1,9) (2,5) (3,6) all differ; last source 6 > 3
    assert_eq!(memcmp(&m, 0, 3, 3), 1);
    assert_eq!(memcmp(&m, 3, 0, 3), -1);
    let n: Vec<u8> = vec![1, 2, 3, 1, 2, 3];
    assert_eq!(memcmp(&n, 0, 3, 3), 0);
    let p: Vec<u8> = vec![1, 7, 3, 2, 7, 4];
    assert_eq!(memcmp(&p, 0, 3, 3), 0);
}

#[test]
fn memcpy_forward_overlap_repeats_the_first_bytes() {
    let mut m: Vec<u8> = (0..10).collect();
    memcpy(&mut m, 2, 0, 7);
    assert_eq!(m, vec![0, 1, 0, 1, 0, 1, 0, 1, 0, 9]);
    let mut n: Vec<u8> = (0..10).collect();
    memcpy(&mut n, 0, 3, 6);
    assert_eq!(n, vec![3, 4, 5, 6, 7, 8, 6, 7, 8, 9]);
}

#[test]
fn memcmp_of_nothing() {
    let m: Vec<u8> = vec![1, 2];
    assert_eq!(memcmp(&m, 0, 1, 0), 0);
}
