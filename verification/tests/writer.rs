use bitwise_io::writer::{writer_buf_to_bytes, writer_pad_buf, DEFAULT_BUF_SIZE, THRESHOLD};
use bitwise_io::{Bit, BitWriter, ByteSink, MemorySink};

use Bit::{One, Zero};

/// A sink that keeps what it accepts, takes at most `limit` bytes per
/// write, and fails the writes and flushes whose numbers are listed.
struct Scripted {
    bytes: Vec<u8>,
    limit: usize,
    writes: usize,
    flushes: usize,
    failing_writes: Vec<usize>,
    failing_flushes: Vec<usize>,
}

impl Scripted {
    fn new() -> Scripted {
        Scripted {
            bytes: Vec::new(),
            limit: usize::MAX,
            writes: 0,
            flushes: 0,
            failing_writes: Vec::new(),
            failing_flushes: Vec::new(),
        }
    }
}

impl ByteSink for Scripted {
    type Error = String;

    fn write(&mut self, bytes: &[u8]) -> Result<usize, String> {
        self.writes += 1;
        if self.failing_writes.contains(&self.writes) {
            return Err(format!("write {} failed", self.writes));
        }
        let k = bytes.len().min(self.limit);
        self.bytes.extend_from_slice(&bytes[..k]);
        Ok(k)
    }

    fn flush(&mut self) -> Result<(), String> {
        self.flushes += 1;
        if self.failing_flushes.contains(&self.flushes) {
            return Err(format!("flush {} failed", self.flushes));
        }
        Ok(())
    }
}

fn thirteen() -> Vec<Bit> {
    vec![One, Zero, One, One, Zero, Zero, One, Zero, One, One, One, Zero, One]
}

#[test]
fn a_new_writer_holds_nothing() {
    let w = BitWriter::new(MemorySink::new(), true);
    assert_eq!(w.buf_len(), 0);
    assert!(w.is_empty());
    assert!(w.pad_zero);
    assert!(w.get_ref().bytes().is_empty());
}

#[test]
fn with_capacity_makes_the_same_writer() {
    let mut w = BitWriter::with_capacity(2, MemorySink::new(), false);
    assert_eq!(w.buf_len(), 0);
    assert!(w.is_empty());
    assert!(!w.pad_zero);
    w.write_bits(&vec![Zero; 40]).unwrap();
    assert_eq!(w.buf_len(), 40);
    w.write_buf().unwrap();
    assert_eq!(w.get_ref().bytes(), &vec![0u8; 5]);
    let z = BitWriter::with_capacity(0, MemorySink::new(), true);
    assert_eq!(z.buf_len(), 0);
}

#[test]
fn the_constants_are_one_kibibyte_and_its_bits() {
    assert_eq!(DEFAULT_BUF_SIZE, 1024);
    assert_eq!(THRESHOLD, 8192);
    assert_eq!(THRESHOLD, DEFAULT_BUF_SIZE * 8);
}

#[test]
fn one_then_seven_zeros_is_0x80() {
    let mut w = BitWriter::new(MemorySink::new(), true);
    w.write_bits(&vec![One, Zero, Zero, Zero, Zero, Zero, Zero, Zero]).unwrap();
    w.write_buf().unwrap();
    assert_eq!(w.get_ref().bytes(), &vec![0x80u8]);
}

#[test]
fn seven_zeros_then_one_is_0x01() {
    let mut w = BitWriter::new(MemorySink::new(), true);
    w.write_bits(&vec![Zero, Zero, Zero, Zero, Zero, Zero, Zero, One]).unwrap();
    w.write_buf().unwrap();
    assert_eq!(w.get_ref().bytes(), &vec![0x01u8]);
}

#[test]
fn each_bit_lands_on_its_own_place() {
    let places = [0x80u8, 0x40, 0x20, 0x10, 0x08, 0x04, 0x02, 0x01];
    for i in 0..8 {
        let mut bits = vec![Zero; 8];
        bits[i] = One;
        let mut w = BitWriter::new(MemorySink::new(), true);
        w.write_bits(&bits).unwrap();
        w.write_buf().unwrap();
        assert_eq!(w.get_ref().bytes(), &vec![places[i]]);
    }
}

#[test]
fn write_queues_without_touching_the_sink() {
    let mut w = BitWriter::new(Scripted::new(), true);
    w.write(One).unwrap();
    w.write(Zero).unwrap();
    w.write(One).unwrap();
    assert_eq!(w.buf_len(), 3);
    assert!(!w.is_empty());
    assert_eq!(w.get_ref().writes, 0);
    assert_eq!(w.get_ref().flushes, 0);
}

#[test]
fn an_incomplete_byte_is_padded_with_zero() {
    let mut w = BitWriter::new(MemorySink::new(), true);
    w.write_bits(&thirteen()).unwrap();
    w.write_buf().unwrap();
    assert_eq!(w.get_ref().bytes(), &vec![0b1011_0010u8, 0b1110_1000]);
    assert_eq!(w.buf_len(), 0);
}

#[test]
fn an_incomplete_byte_is_padded_with_one() {
    let mut w = BitWriter::new(MemorySink::new(), false);
    w.write_bits(&thirteen()).unwrap();
    w.write_buf().unwrap();
    assert_eq!(w.get_ref().bytes(), &vec![0b1011_0010u8, 0b1110_1111]);
    assert_eq!(w.buf_len(), 0);
}

#[test]
fn whole_bytes_get_no_padding() {
    let mut w = BitWriter::new(MemorySink::new(), false);
    w.write_bits(&vec![Zero; 16]).unwrap();
    w.write_buf().unwrap();
    assert_eq!(w.get_ref().bytes(), &vec![0u8, 0]);
}

#[test]
fn one_bit_alone_is_padded_with_seven() {
    let mut w = BitWriter::new(MemorySink::new(), false);
    w.write(Zero).unwrap();
    w.write_buf().unwrap();
    assert_eq!(w.get_ref().bytes(), &vec![0b0111_1111u8]);
    let mut z = BitWriter::new(MemorySink::new(), true);
    z.write(One).unwrap();
    z.write_buf().unwrap();
    assert_eq!(z.get_ref().bytes(), &vec![0b1000_0000u8]);
}

#[test]
fn the_pad_policy_can_be_changed_on_the_writer() {
    let mut w = BitWriter::new(MemorySink::new(), true);
    w.write(One).unwrap();
    w.pad_zero = false;
    w.write_buf().unwrap();
    assert_eq!(w.get_ref().bytes(), &vec![0xFFu8]);
}

#[test]
fn the_pad_policy_can_be_read_and_set() {
    let mut w = BitWriter::new(MemorySink::new(), true);
    assert!(w.pad_zero());
    w.write_bits(&vec![Zero, One, Zero]).unwrap();
    w.set_pad_zero(false);
    assert!(!w.pad_zero());
    assert!(!w.pad_zero);
    assert_eq!(w.buf_len(), 3);
    assert!(w.get_ref().bytes().is_empty());
    w.write_buf().unwrap();
    assert_eq!(w.get_ref().bytes(), &vec![0b0101_1111u8]);
    w.set_pad_zero(true);
    w.write(One).unwrap();
    w.write_buf().unwrap();
    assert_eq!(w.get_ref().bytes(), &vec![0b0101_1111u8, 0b1000_0000]);
}

#[test]
fn a_failed_flush_at_the_threshold_is_returned_as_it_came() {
    let mut sink = Scripted::new();
    sink.failing_flushes = vec![1];
    let mut w = BitWriter::new(sink, true);
    w.write_bits(&vec![Zero; THRESHOLD]).unwrap();
    assert_eq!(w.write(One), Err("flush 1 failed".to_string()));
    assert_eq!(w.buf_len(), 0);
    assert_eq!(w.get_ref().writes, 1);
    assert_eq!(w.get_ref().flushes, 1);
    assert_eq!(w.get_ref().bytes, vec![0u8; 1024]);
    assert_eq!(w.write(One), Ok(()));
    assert_eq!(w.buf_len(), 1);
    assert_eq!(w.get_ref().writes, 1);
}

#[test]
fn flushing_an_empty_queue_offers_no_bytes() {
    let mut w = BitWriter::new(Scripted::new(), true);
    w.write_buf().unwrap();
    assert!(w.get_ref().bytes.is_empty());
    assert_eq!(w.get_ref().writes, 1);
    assert_eq!(w.get_ref().flushes, 1);
}

#[test]
fn write_buf_writes_once_and_flushes_once() {
    let mut w = BitWriter::new(Scripted::new(), true);
    w.write_bits(&vec![One; 24]).unwrap();
    w.write_buf().unwrap();
    assert_eq!(w.get_ref().writes, 1);
    assert_eq!(w.get_ref().flushes, 1);
    assert_eq!(w.get_ref().bytes, vec![0xFFu8; 3]);
}

#[test]
fn discard_non_byte_drops_the_newest_bits() {
    let mut w = BitWriter::new(MemorySink::new(), false);
    w.write_bits(&thirteen()).unwrap();
    w.discard_non_byte();
    assert_eq!(w.buf_len(), 8);
    w.write_buf().unwrap();
    assert_eq!(w.get_ref().bytes(), &vec![0b1011_0010u8]);
}

#[test]
fn discard_non_byte_leaves_whole_bytes_alone() {
    let mut w = BitWriter::new(MemorySink::new(), true);
    w.discard_non_byte();
    assert_eq!(w.buf_len(), 0);
    w.write_bits(&vec![One; 16]).unwrap();
    w.discard_non_byte();
    assert_eq!(w.buf_len(), 16);
    w.write_bits(&vec![Zero; 7]).unwrap();
    w.discard_non_byte();
    assert_eq!(w.buf_len(), 16);
    w.write_buf().unwrap();
    assert_eq!(w.get_ref().bytes(), &vec![0xFFu8, 0xFF]);
}

#[test]
fn discard_non_byte_empties_a_queue_of_less_than_a_byte() {
    let mut w = BitWriter::new(Scripted::new(), true);
    w.write_bits(&vec![One; 5]).unwrap();
    w.discard_non_byte();
    assert!(w.is_empty());
    assert_eq!(w.get_ref().writes, 0);
}

#[test]
fn the_queue_fills_to_the_threshold_without_a_flush() {
    let mut w = BitWriter::new(Scripted::new(), true);
    let bits: Vec<Bit> = (0..THRESHOLD).map(|i| if i % 2 == 0 { One } else { Zero }).collect();
    w.write_bits(&bits).unwrap();
    assert_eq!(w.buf_len(), 8192);
    assert_eq!(w.get_ref().writes, 0);
    assert!(w.get_ref().bytes.is_empty());
}

#[test]
fn the_bit_after_the_threshold_flushes_first() {
    let mut w = BitWriter::new(Scripted::new(), true);
    let bits: Vec<Bit> = (0..THRESHOLD).map(|i| if i % 2 == 0 { One } else { Zero }).collect();
    w.write_bits(&bits).unwrap();
    w.write(One).unwrap();
    assert_eq!(w.buf_len(), 1);
    assert_eq!(w.get_ref().writes, 1);
    assert_eq!(w.get_ref().flushes, 1);
    assert_eq!(w.get_ref().bytes, vec![0xAAu8; 1024]);
    w.write_buf().unwrap();
    assert_eq!(w.get_ref().bytes.len(), 1025);
    assert_eq!(w.get_ref().bytes[1024], 0x80);
}

#[test]
fn a_long_run_flushes_once_per_threshold() {
    let mut w = BitWriter::new(Scripted::new(), false);
    let n = 2 * THRESHOLD + 5;
    let bits: Vec<Bit> = (0..n).map(|i| if i % 8 == 7 { One } else { Zero }).collect();
    w.write_bits(&bits).unwrap();
    assert_eq!(w.get_ref().writes, 2);
    assert_eq!(w.get_ref().bytes, vec![0x01u8; 2048]);
    assert_eq!(w.buf_len(), 5);
    w.write_buf().unwrap();
    assert_eq!(w.get_ref().writes, 3);
    assert_eq!(w.get_ref().bytes.len(), 2049);
    assert_eq!(w.get_ref().bytes[2048], 0b0000_0111);
}

#[test]
fn a_failed_flush_keeps_the_bit_out() {
    let mut sink = Scripted::new();
    sink.failing_writes = vec![1];
    let mut w = BitWriter::new(sink, true);
    w.write_bits(&vec![One; THRESHOLD]).unwrap();
    assert_eq!(w.write(One), Err("write 1 failed".to_string()));
    assert_eq!(w.buf_len(), 0);
    assert!(w.get_ref().bytes.is_empty());
    assert_eq!(w.get_ref().writes, 1);
    assert_eq!(w.get_ref().flushes, 0);
}

#[test]
fn write_bits_stops_at_the_first_failure() {
    let mut sink = Scripted::new();
    sink.failing_writes = vec![2];
    let mut w = BitWriter::new(sink, true);
    let bits = vec![One; 3 * THRESHOLD];
    assert_eq!(w.write_bits(&bits), Err("write 2 failed".to_string()));
    assert_eq!(w.get_ref().writes, 2);
    assert_eq!(w.get_ref().bytes, vec![0xFFu8; 1024]);
    assert_eq!(w.buf_len(), 0);
}

#[test]
fn a_failed_write_is_returned_and_the_bytes_are_gone() {
    let mut sink = Scripted::new();
    sink.failing_writes = vec![1];
    let mut w = BitWriter::new(sink, true);
    w.write_bits(&vec![One; 12]).unwrap();
    assert_eq!(w.write_buf(), Err("write 1 failed".to_string()));
    assert_eq!(w.buf_len(), 0);
    assert_eq!(w.get_ref().flushes, 0);
    w.write_buf().unwrap();
    assert!(w.get_ref().bytes.is_empty());
}

#[test]
fn a_failed_sink_flush_is_returned() {
    let mut sink = Scripted::new();
    sink.failing_flushes = vec![1];
    let mut w = BitWriter::new(sink, true);
    w.write_bits(&vec![One; 8]).unwrap();
    assert_eq!(w.write_buf(), Err("flush 1 failed".to_string()));
    assert_eq!(w.get_ref().bytes, vec![0xFFu8]);
    assert_eq!(w.buf_len(), 0);
}

#[test]
fn a_short_write_loses_the_rest() {
    let mut sink = Scripted::new();
    sink.limit = 2;
    let mut w = BitWriter::new(sink, true);
    w.write_bits(&vec![One; 40]).unwrap();
    assert_eq!(w.write_buf(), Ok(()));
    assert_eq!(w.get_ref().bytes, vec![0xFFu8, 0xFF]);
    assert_eq!(w.get_ref().writes, 1);
    assert_eq!(w.buf_len(), 0);
}

#[test]
fn finish_flushes_what_is_left_and_returns_the_sink() {
    let mut w = BitWriter::new(MemorySink::new(), false);
    w.write_bits(&thirteen()).unwrap();
    let sink = w.finish();
    assert_eq!(sink.into_bytes(), vec![0b1011_0010u8, 0b1110_1111]);
}

#[test]
fn finish_swallows_a_failure() {
    let mut sink = Scripted::new();
    sink.failing_writes = vec![1];
    let mut w = BitWriter::new(sink, true);
    w.write(One).unwrap();
    let sink = w.finish();
    assert_eq!(sink.writes, 1);
    assert!(sink.bytes.is_empty());
}

#[test]
fn padding_fills_up_to_the_byte_and_never_past_it() {
    for n in 0..=17usize {
        let mut w = BitWriter::new(MemorySink::new(), false);
        w.write_bits(&vec![Zero; n]).unwrap();
        writer_pad_buf(&mut w);
        assert_eq!(w.buf_len(), (n + 7) / 8 * 8);
        assert_eq!(w.buf_len() - n, (8 - n % 8) % 8);
    }
}

#[test]
fn draining_takes_whole_bytes_and_leaves_the_rest() {
    let mut w = BitWriter::new(Scripted::new(), true);
    w.write_bits(&thirteen()).unwrap();
    let bytes = writer_buf_to_bytes(&mut w);
    assert_eq!(bytes, vec![0b1011_0010u8]);
    assert_eq!(w.buf_len(), 5);
    assert_eq!(w.get_ref().writes, 0);
    w.write_buf().unwrap();
    assert_eq!(w.get_ref().bytes, vec![0b1110_1000u8]);
}

#[test]
fn draining_less_than_a_byte_gives_nothing() {
    let mut w = BitWriter::new(MemorySink::new(), true);
    w.write_bits(&vec![One; 7]).unwrap();
    assert_eq!(writer_buf_to_bytes(&mut w), Vec::<u8>::new());
    assert_eq!(w.buf_len(), 7);
}
