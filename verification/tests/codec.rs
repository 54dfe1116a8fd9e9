use logic_circuit_simulator::circuit::codec::bit_at;
use logic_circuit_simulator::circuit::{decode, encode};

#[test]
fn encode_reads_the_first_pin_as_the_highest_digit() {
    assert_eq!(encode(&[true, false, true, true]), 11);
    assert_eq!(encode(&[false, false, true]), 1);
    assert_eq!(encode(&[true, false, false]), 4);
    assert_eq!(encode(&[true]), 1);
    assert_eq!(encode(&[false]), 0);
}

#[test]
fn encode_of_no_pins_is_zero() {
    assert_eq!(encode(&[]), 0);
}

#[test]
fn decode_writes_the_highest_digit_first() {
    let mut bits = [false; 4];
    decode(11, &mut bits);
    assert_eq!(bits, [true, false, true, true]);

    let mut bits = [false; 3];
    decode(4, &mut bits);
    assert_eq!(bits, [true, false, false]);
}

#[test]
fn decode_clears_the_pins_above_the_highest_digit() {
    let mut bits = [true; 3];
    decode(1, &mut bits);
    assert_eq!(bits, [false, false, true]);

    let mut bits = [true; 5];
    decode(0, &mut bits);
    assert_eq!(bits, [false; 5]);
}

#[test]
fn decode_drops_the_digits_that_do_not_fit() {
    let mut bits = [false; 2];
    decode(6, &mut bits);
    assert_eq!(bits, [true, false]);

    let mut bits = [false; 2];
    decode(4, &mut bits);
    assert_eq!(bits, [false, false]);

    let mut bits = [false; 3];
    decode(usize::MAX, &mut bits);
    assert_eq!(bits, [true; 3]);
}

#[test]
fn decode_into_no_pins_does_nothing() {
    let mut bits: [bool; 0] = [];
    decode(5, &mut bits);
    assert_eq!(bits.len(), 0);
}

#[test]
fn decode_into_more_pins_than_a_word_has_digits() {
    let word = usize::BITS as usize;
    let mut bits = vec![true; word + 6];
    decode(usize::MAX, &mut bits);
    assert_eq!(&bits[..6], &[false; 6]);
    assert!(bits[6..].iter().all(|bit| *bit));
}

#[test]
fn decode_after_encode_gives_the_pins_back() {
    for width in 0..7usize {
        for value in 0..(1usize << width) {
            let bits: Vec<bool> = (0..width).map(|i| (value >> (width - 1 - i)) & 1 == 1).collect();
            assert_eq!(encode(&bits), value);
            let mut back = vec![true; width];
            decode(encode(&bits), &mut back);
            assert_eq!(back, bits);
        }
    }
}

#[test]
fn decode_after_encode_of_a_full_word() {
    let word = usize::BITS as usize;
    let mut bits = vec![false; word];
    bits[0] = true;
    bits[word - 1] = true;
    assert_eq!(encode(&bits), (1usize << (word - 1)) + 1);
    let mut back = vec![false; word];
    decode(encode(&bits), &mut back);
    assert_eq!(back, bits);
}

#[test]
fn encode_keeps_the_lowest_digits_of_a_long_sequence() {
    let word = usize::BITS as usize;
    let mut bits = vec![false; word + 1];
    bits[0] = true;
    assert_eq!(encode(&bits), 0);
    bits[word] = true;
    assert_eq!(encode(&bits), 1);

    let mut back = vec![false; word + 1];
    decode(encode(&bits), &mut back);
    assert_ne!(back, bits);
    assert_eq!(&back[1..], &bits[1..]);
}

#[test]
fn bit_at_reads_one_digit() {
    assert!(bit_at(5, 0));
    assert!(!bit_at(5, 1));
    assert!(bit_at(5, 2));
    assert!(!bit_at(5, 3));
    assert!(bit_at(usize::MAX, usize::BITS as usize - 1));
    assert!(!bit_at(usize::MAX, usize::BITS as usize));
    assert!(!bit_at(usize::MAX, usize::MAX));
}
