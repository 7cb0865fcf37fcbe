use bitwise_io::{Bit, BitReader, BitWriter, MemorySink, MemorySource};

use Bit::{One, Zero};

fn pattern(n: usize) -> Vec<Bit> {
    (0..n).map(|i| if (i * i + i / 3) % 5 < 2 { One } else { Zero }).collect()
}

fn through_bytes(bits: &Vec<Bit>, pad_zero: bool, chunk: usize) -> Vec<Bit> {
    let mut w = BitWriter::new(MemorySink::new(), pad_zero);
    w.write_bits(bits).unwrap();
    w.write_buf().unwrap();
    let bytes = w.finish().into_bytes();
    assert_eq!(bytes.len(), (bits.len() + 7) / 8);
    let mut r = BitReader::new(MemorySource::with_chunk_size(bytes.clone(), chunk)).unwrap();
    let back = r.read_multi(bytes.len() * 8).unwrap();
    assert!(r.read().is_err());
    back
}

#[test]
fn thirteen_bits_come_back_with_three_zeros() {
    let bits = vec![One, Zero, One, One, Zero, Zero, One, Zero, One, One, One, Zero, One];
    let mut expected = bits.clone();
    expected.extend(vec![Zero, Zero, Zero]);
    assert_eq!(through_bytes(&bits, true, 1024), expected);
}

#[test]
fn thirteen_bits_come_back_with_three_ones() {
    let bits = vec![One, Zero, One, One, Zero, Zero, One, Zero, One, One, One, Zero, One];
    let mut expected = bits.clone();
    expected.extend(vec![One, One, One]);
    assert_eq!(through_bytes(&bits, false, 1024), expected);
}

#[test]
fn bits_of_every_short_length_come_back_padded_with_zero() {
    for n in 0..70usize {
        let bits = pattern(n);
        let mut expected = bits.clone();
        expected.extend(vec![Zero; (8 - n % 8) % 8]);
        assert_eq!(through_bytes(&bits, true, 3), expected);
    }
}

#[test]
fn bits_of_every_short_length_come_back_padded_with_one() {
    for n in 0..70usize {
        let bits = pattern(n);
        let mut expected = bits.clone();
        expected.extend(vec![One; (8 - n % 8) % 8]);
        assert_eq!(through_bytes(&bits, false, 5), expected);
    }
}

#[test]
fn no_bits_make_no_bytes() {
    assert_eq!(through_bytes(&Vec::new(), true, 1), Vec::<Bit>::new());
    assert_eq!(through_bytes(&Vec::new(), false, 1), Vec::<Bit>::new());
}

#[test]
fn a_run_past_the_threshold_comes_back_whole() {
    for n in [8191usize, 8192, 8193, 16384, 16385, 20003] {
        let bits = pattern(n);
        let mut expected = bits.clone();
        expected.extend(vec![Zero; (8 - n % 8) % 8]);
        assert_eq!(through_bytes(&bits, true, 1000), expected);
        let mut ones = bits.clone();
        ones.extend(vec![One; (8 - n % 8) % 8]);
        assert_eq!(through_bytes(&bits, false, 4096), ones);
    }
}

#[test]
fn bytes_read_and_written_again_are_the_same_bytes() {
    let data: Vec<u8> = (0..=255u8).rev().collect();
    let mut r = BitReader::new(MemorySource::with_chunk_size(data.clone(), 10)).unwrap();
    let bits = r.read_multi(data.len() * 8).unwrap();
    let mut w = BitWriter::new(MemorySink::new(), true);
    w.write_bits(&bits).unwrap();
    assert_eq!(w.finish().into_bytes(), data);
}
