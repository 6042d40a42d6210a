use dsss::dsss::{DSSS, ModType};
use dsss::util::count_bit_errors;

const OQPSK_CHIPS: [u32; 16] = [
    0x6077ae6c, 0x4e077ae6, 0x6ce077ae, 0x66ce077a, 0x2e6ce077, 0x7ae6ce07, 0x77ae6ce0, 0x077ae6ce,
    0x1f885193, 0x31f88519, 0x131f8851, 0x1931f885, 0x51931f88, 0x051931f8, 0x0851931f, 0x78851931,
];

#[test]
fn dsss_test() {
    let bpsk_dsss = DSSS::new(ModType::BPSK, 0);

    for symbol in bpsk_dsss.map.symbols.iter() {
        let encoded = bpsk_dsss.encode(*symbol);
        let decoded = bpsk_dsss.decode(encoded).unwrap();
        assert_eq!(*symbol, decoded);
    }
}

#[test]
fn dsss_dsss_test() {
    let bpsk_dsss = DSSS::new(ModType::BPSK, 0);

    for symbol in bpsk_dsss.map.symbols.iter() {
        let encoded = bpsk_dsss.encode(*symbol);
        let decoded = bpsk_dsss.decode(encoded).unwrap();
        assert_eq!(*symbol, decoded);
    }
}

#[test]
fn round_trip_oqpsk() {
    let codec = DSSS::new(ModType::OQPSK, 0);
    for symbol in 0u8..16 {
        let encoded = codec.encode(symbol);
        assert_eq!(codec.decode(encoded), Some(symbol));
    }
}

#[test]
fn bit_exact_bpsk_table() {
    let codec = DSSS::new(ModType::BPSK, 0);
    assert_eq!(codec.encode(0), 0x000009af);
    assert_eq!(codec.encode(1), 0x00007650);
}

#[test]
fn bit_exact_oqpsk_table() {
    let codec = DSSS::new(ModType::OQPSK, 0);
    for symbol in 0u8..16 {
        assert_eq!(codec.encode(symbol), OQPSK_CHIPS[symbol as usize]);
    }
}

#[test]
fn construction_at_threshold_bound() {
    let bpsk = DSSS::new(ModType::BPSK, 15);
    assert_eq!(bpsk.threshold, 15);
    assert_eq!(bpsk.map.chips_per_symbol, 15);
    assert_eq!(bpsk.map.bits_per_symbol, 1);
    let oqpsk = DSSS::new(ModType::OQPSK, 32);
    assert_eq!(oqpsk.threshold, 32);
    assert_eq!(oqpsk.map.chips_per_symbol, 32);
    assert_eq!(oqpsk.map.bits_per_symbol, 4);
}

#[test]
fn worst_case_decode() {
    let codec = DSSS::new(ModType::BPSK, 0);
    assert_eq!(codec.decode(0xFFFFFFFF), None);
}

#[test]
fn count_bit_errors_values() {
    assert_eq!(count_bit_errors(0b1010, 0b0101), 4);
    assert_eq!(count_bit_errors(0, u32::MAX), 32);
    assert_eq!(count_bit_errors(0x000009af, 0x00007650), 15);
    for x in [0u32, 1, 0xdead_beef, u32::MAX] {
        assert_eq!(count_bit_errors(x, x), 0);
    }
}

#[test]
fn tie_break_takes_first_entry() {
    // 0x60777ae6 lies at distance 7 from both the first and the second
    // OQPSK entry, and at distance 12 or more from every other one: the
    // tie goes to the entry earlier in table order, symbol 0.
    let tie: u32 = 0x60777ae6;
    assert_eq!(
        count_bit_errors(tie, OQPSK_CHIPS[0]),
        count_bit_errors(tie, OQPSK_CHIPS[1])
    );
    assert_eq!(count_bit_errors(tie, OQPSK_CHIPS[0]), 7);
    for entry in &OQPSK_CHIPS[2..] {
        assert!(count_bit_errors(tie, *entry) >= 12);
    }
    let codec = DSSS::new(ModType::OQPSK, 32);
    assert_eq!(codec.decode(tie), Some(0));
}

#[test]
fn threshold_gates_acceptance() {
    // 0x000009a8 is the BPSK pattern of symbol 0 with three chips
    // flipped: distance 3 to symbol 0, distance 12 to symbol 1. The
    // decode succeeds exactly when the threshold reaches 3, and raising
    // the threshold further keeps the same winner.
    let corrupted: u32 = 0x000009a8;
    assert_eq!(count_bit_errors(corrupted, 0x000009af), 3);
    assert_eq!(count_bit_errors(corrupted, 0x00007650), 12);
    assert_eq!(DSSS::new(ModType::BPSK, 2).decode(corrupted), None);
    assert_eq!(DSSS::new(ModType::BPSK, 3).decode(corrupted), Some(0));
    assert_eq!(DSSS::new(ModType::BPSK, 15).decode(corrupted), Some(0));
}

#[test]
fn decode_miss_reports_none_not_panic() {
    // 0x60777ae6 lies at distance 7 from the nearest OQPSK entry: one
    // below that distance the decode is a normal miss, at it a hit.
    assert_eq!(DSSS::new(ModType::OQPSK, 6).decode(0x60777ae6), None);
    assert_eq!(DSSS::new(ModType::OQPSK, 7).decode(0x60777ae6), Some(0));
}
