//! Chip-level spreading and despreading for 802.15.4 modulations.
//!
//! A [`ChipMap`] pairs each data symbol of a modulation with a fixed
//! 32-bit chip pattern; a [`DSSS`] context adds an error threshold and
//! decodes a received pattern to the nearest codebook symbol.

use crate::util::{hamming, lemma_hamming_le_32, lemma_hamming_pos, lemma_hamming_self};
use vstd::prelude::*;

verus! {

/// 802.15.4 modulation schemes, each with its own fixed codebook.
#[derive(Debug)]
pub enum ModType {
    /// Binary phase-shift keying: 2 symbols, 15 chips per symbol.
    BPSK,
    /// Offset quadrature phase-shift keying: 16 symbols, 32 chips per symbol.
    OQPSK,
}

/// The BPSK symbol table.
pub open spec fn bpsk_symbols() -> Seq<u8> {
    seq![0u8, 1u8]
}

/// The BPSK chip table: one 15-chip spreading sequence per symbol.
pub open spec fn bpsk_chips() -> Seq<u32> {
    seq![0x000009afu32, 0x00007650u32]
}

/// The OQPSK symbol table.
pub open spec fn oqpsk_symbols() -> Seq<u8> {
    seq![
        0x00u8, 0x01u8, 0x02u8, 0x03u8,
        0x04u8, 0x05u8, 0x06u8, 0x07u8,
        0x08u8, 0x09u8, 0x0au8, 0x0bu8,
        0x0cu8, 0x0du8, 0x0eu8, 0x0fu8,
    ]
}

/// The OQPSK chip table: one 32-chip spreading sequence per symbol.
pub open spec fn oqpsk_chips() -> Seq<u32> {
    seq![
        0x6077ae6cu32, 0x4e077ae6u32,
        0x6ce077aeu32, 0x66ce077au32,
        0x2e6ce077u32, 0x7ae6ce07u32,
        0x77ae6ce0u32, 0x077ae6ceu32,
        0x1f885193u32, 0x31f88519u32,
        0x131f8851u32, 0x1931f885u32,
        0x51931f88u32, 0x051931f8u32,
        0x0851931fu32, 0x78851931u32,
    ]
}

/// Width of the chip alphabet for a modulation: the largest possible
/// Hamming distance between two of its chip patterns.
pub open spec fn spec_chips_per_symbol(mod_type: ModType) -> u32 {
    match mod_type {
        ModType::BPSK => 15,
        ModType::OQPSK => 32,
    }
}

/// Number of data bits one symbol of a modulation carries.
pub open spec fn spec_bits_per_symbol(mod_type: ModType) -> u32 {
    match mod_type {
        ModType::BPSK => 1,
        ModType::OQPSK => 4,
    }
}

/// The symbol table a modulation's codebook holds.
pub open spec fn spec_symbols(mod_type: ModType) -> Seq<u8> {
    match mod_type {
        ModType::BPSK => bpsk_symbols(),
        ModType::OQPSK => oqpsk_symbols(),
    }
}

/// The chip table a modulation's codebook holds.
pub open spec fn spec_chips(mod_type: ModType) -> Seq<u32> {
    match mod_type {
        ModType::BPSK => bpsk_chips(),
        ModType::OQPSK => oqpsk_chips(),
    }
}

/// Chip <-> symbol mapping: parallel tables, one chip pattern per symbol.
#[derive(Debug)]
pub struct ChipMap {
    pub chips_per_symbol: u32,
    pub bits_per_symbol: u32,
    pub symbols: Vec<u8>,
    pub chips: Vec<u32>,
}

impl ChipMap {
    /// A valid codebook: the tables are parallel and non-empty, each
    /// symbol is its own table position, and every chip pattern is unique.
    pub open spec fn wf(self) -> bool {
        &&& self.symbols@.len() == self.chips@.len()
        &&& 0 < self.chips@.len() <= 256
        &&& (forall|i: int| 0 <= i < self.symbols@.len() ==> self.symbols@[i] == i as u8)
        &&& (forall|i: int, j: int|
            0 <= i < j < self.chips@.len() ==> self.chips@[i] != self.chips@[j])
    }

    /// Build the codebook of a modulation, bit-exact to the 802.15.4
    /// spreading tables.
    pub fn new(mod_type: ModType) -> (r: ChipMap)
        ensures
            r.wf(),
            r.chips_per_symbol == spec_chips_per_symbol(mod_type),
            r.bits_per_symbol == spec_bits_per_symbol(mod_type),
            r.symbols@ == spec_symbols(mod_type),
            r.chips@ == spec_chips(mod_type),
    {
        match mod_type {
            ModType::BPSK => {
                let r = ChipMap {
                    chips_per_symbol: 15,
                    bits_per_symbol: 1,
                    symbols: vec![0, 1],
                    chips: vec![0x000009af, 0x00007650],
                };
                proof {
                    assert(r.symbols@ =~= bpsk_symbols());
                    assert(r.chips@ =~= bpsk_chips());
                }
                r
            },
            ModType::OQPSK => {
                let r = ChipMap {
                    chips_per_symbol: 32,
                    bits_per_symbol: 4,
                    symbols: vec![
                        0x00, 0x01, 0x02, 0x03,
                        0x04, 0x05, 0x06, 0x07,
                        0x08, 0x09, 0x0a, 0x0b,
                        0x0c, 0x0d, 0x0e, 0x0f,
                    ],
                    chips: vec![
                        0x6077ae6c, 0x4e077ae6,
                        0x6ce077ae, 0x66ce077a,
                        0x2e6ce077, 0x7ae6ce07,
                        0x77ae6ce0, 0x077ae6ce,
                        0x1f885193, 0x31f88519,
                        0x131f8851, 0x1931f885,
                        0x51931f88, 0x051931f8,
                        0x0851931f, 0x78851931,
                    ],
                };
                proof {
                    assert(r.symbols@ =~= oqpsk_symbols());
                    assert(r.chips@ =~= oqpsk_chips());
                }
                r
            },
        }
    }
}

/// Index of the first entry among `table[0..n]` at minimum Hamming
/// distance from `chips`, scanning in table order and keeping the
/// earlier entry on a tie.
pub open spec fn first_min_in_prefix(chips: u32, table: Seq<u32>, n: int) -> int
    recommends
        1 <= n <= table.len(),
    decreases n,
{
    if n <= 1 {
        0
    } else if hamming(chips, table[n - 1])
        < hamming(chips, table[first_min_in_prefix(chips, table, n - 1)]) {
        n - 1
    } else {
        first_min_in_prefix(chips, table, n - 1)
    }
}

/// Index of the winning table entry for a received pattern: the first
/// entry at minimum Hamming distance from `chips`.
pub open spec fn winner_index(chips: u32, table: Seq<u32>) -> int {
    first_min_in_prefix(chips, table, table.len() as int)
}

/// The least Hamming distance from `chips` to any entry of `table`.
pub open spec fn min_errors(chips: u32, table: Seq<u32>) -> nat {
    hamming(chips, table[winner_index(chips, table)])
}

proof fn lemma_first_min_bounds(chips: u32, table: Seq<u32>, n: int)
    requires
        1 <= n <= table.len(),
    ensures
        0 <= first_min_in_prefix(chips, table, n) < n,
    decreases n,
{
    if n > 1 {
        lemma_first_min_bounds(chips, table, n - 1);
    }
}

proof fn lemma_first_min_is_min(chips: u32, table: Seq<u32>, n: int)
    requires
        1 <= n <= table.len(),
    ensures
        0 <= first_min_in_prefix(chips, table, n) < n,
        forall|i: int|
            0 <= i < n ==> hamming(chips, table[first_min_in_prefix(chips, table, n)])
                <= hamming(chips, #[trigger] table[i]),
    decreases n,
{
    lemma_first_min_bounds(chips, table, n);
    if n > 1 {
        lemma_first_min_is_min(chips, table, n - 1);
    }
}

proof fn lemma_first_min_is_first(chips: u32, table: Seq<u32>, n: int)
    requires
        1 <= n <= table.len(),
    ensures
        forall|i: int|
            0 <= i < first_min_in_prefix(chips, table, n) ==> hamming(chips, #[trigger] table[i])
                > hamming(chips, table[first_min_in_prefix(chips, table, n)]),
    decreases n,
{
    if n > 1 {
        lemma_first_min_is_min(chips, table, n - 1);
        lemma_first_min_is_first(chips, table, n - 1);
    }
}

/// The winner of a non-empty table is a valid index, and its Hamming
/// distance from `chips` — `min_errors` — is the least over all entries.
pub proof fn lemma_min_errors_is_min(chips: u32, table: Seq<u32>)
    requires
        table.len() >= 1,
    ensures
        0 <= winner_index(chips, table) < table.len(),
        min_errors(chips, table) == hamming(chips, table[winner_index(chips, table)]),
        forall|i: int|
            0 <= i < table.len() ==> min_errors(chips, table) <= hamming(
                chips,
                #[trigger] table[i],
            ),
{
    lemma_first_min_is_min(chips, table, table.len() as int);
}

/// Tie-break determinism: every entry before the winner lies strictly
/// farther from `chips`, so among entries at equal distance the one
/// earliest in table order always wins.
pub proof fn lemma_tie_break_first(chips: u32, table: Seq<u32>)
    requires
        table.len() >= 1,
    ensures
        0 <= winner_index(chips, table) < table.len(),
        forall|i: int|
            0 <= i < winner_index(chips, table) ==> hamming(chips, #[trigger] table[i])
                > min_errors(chips, table),
{
    lemma_first_min_bounds(chips, table, table.len() as int);
    lemma_first_min_is_first(chips, table, table.len() as int);
}

/// Round trip: a chip pattern taken straight from a valid codebook is
/// at distance zero from its own entry and from no other, so the winner
/// is the encoded symbol itself and decode recovers it at any threshold.
pub proof fn lemma_round_trip(m: ChipMap, s: u8)
    requires
        m.wf(),
        (s as int) < m.symbols@.len(),
    ensures
        min_errors(m.chips@[s as int], m.chips@) == 0,
        winner_index(m.chips@[s as int], m.chips@) == s as int,
        m.symbols@[winner_index(m.chips@[s as int], m.chips@)] == s,
{
    let c = m.chips@[s as int];
    lemma_hamming_self(c);
    lemma_min_errors_is_min(c, m.chips@);
    assert(min_errors(c, m.chips@) <= hamming(c, m.chips@[s as int]));
    let w = winner_index(c, m.chips@);
    if w != s as int {
        assert(m.chips@[w] != c);
        lemma_hamming_pos(c, m.chips@[w]);
    }
}

/// Threshold monotonicity: the winner does not depend on the threshold,
/// and a pattern accepted at a low threshold is accepted, with the same
/// winning symbol, at every higher one.
pub proof fn lemma_threshold_monotonic(lo: DSSS, hi: DSSS, chips: u32)
    requires
        lo.wf(),
        hi.wf(),
        lo.map.chips@ == hi.map.chips@,
        lo.map.symbols@ == hi.map.symbols@,
        lo.threshold <= hi.threshold,
        min_errors(chips, lo.map.chips@) <= lo.threshold,
    ensures
        min_errors(chips, hi.map.chips@) <= hi.threshold,
        winner_index(chips, hi.map.chips@) == winner_index(chips, lo.map.chips@),
{
}

/// A despreading context: a codebook plus the largest number of chip
/// errors tolerated before a received pattern is rejected.
#[derive(Debug)]
pub struct DSSS {
    /// Chip errors allowed for a received pattern to still decode.
    pub threshold: u32,
    pub map: ChipMap,
}

impl DSSS {
    /// A valid context: a valid codebook and a threshold no larger than
    /// the codebook's chip alphabet width.
    pub open spec fn wf(self) -> bool {
        &&& self.map.wf()
        &&& self.threshold <= self.map.chips_per_symbol
    }

    /// Build a context for a modulation and an error threshold. The
    /// threshold must not exceed the modulation's chips per symbol.
    pub fn new(mod_type: ModType, threshold: u32) -> (r: DSSS)
        requires
            threshold <= spec_chips_per_symbol(mod_type),
        ensures
            r.wf(),
            r.threshold == threshold,
            r.map.chips_per_symbol == spec_chips_per_symbol(mod_type),
            r.map.bits_per_symbol == spec_bits_per_symbol(mod_type),
            r.map.symbols@ == spec_symbols(mod_type),
            r.map.chips@ == spec_chips(mod_type),
    {
        let chip_map = ChipMap::new(mod_type);
        DSSS { threshold, map: chip_map }
    }

    /// Decode a received chip pattern to the nearest codebook symbol.
    ///
    /// Scans the whole codebook in table order; on a tie the earlier
    /// entry wins. Returns the winning symbol when its distance from
    /// `chips` is within the threshold, and `None` otherwise.
    pub fn decode(&self, chips: u32) -> (r: Option<u8>)
        requires
            self.wf(),
        ensures
            min_errors(chips, self.map.chips@) <= self.threshold ==> r == Some(
                self.map.symbols@[winner_index(chips, self.map.chips@)],
            ),
            min_errors(chips, self.map.chips@) > self.threshold ==> r is None,
    {
        let mut min_errors_seen: u32 = u32::MAX;
        let mut symbol_match: u8 = u8::MAX;
        let n: usize = self.map.chips.len();

        let mut i: usize = 0;
        while i < n
            invariant
                self.wf(),
                n == self.map.chips@.len(),
                i <= n,
                i == 0 ==> min_errors_seen == u32::MAX,
                i >= 1 ==> 0 <= first_min_in_prefix(chips, self.map.chips@, i as int) < i,
                i >= 1 ==> min_errors_seen == hamming(
                    chips,
                    self.map.chips@[first_min_in_prefix(chips, self.map.chips@, i as int)],
                ),
                i >= 1 ==> symbol_match == self.map.symbols@[first_min_in_prefix(
                    chips,
                    self.map.chips@,
                    i as int,
                )],
            decreases n - i,
        {
            let errors: u32 = crate::util::count_bit_errors(chips, self.map.chips[i]);
            proof {
                lemma_hamming_le_32(chips, self.map.chips@[i as int]);
            }
            if errors < min_errors_seen {
                min_errors_seen = errors;
                symbol_match = self.map.symbols[i];
            }
            i = i + 1;
        }

        if min_errors_seen <= self.threshold {
            Some(symbol_match)
        } else {
            None
        }
    }

    /// Spread a symbol to its chip pattern: the entry at the symbol's
    /// own position in the codebook.
    pub fn encode(&self, symbol: u8) -> (r: u32)
        requires
            self.wf(),
            self.map.symbols@.contains(symbol),
        ensures
            r == self.map.chips@[symbol as int],
    {
        proof {
            let i = choose|i: int|
                0 <= i < self.map.symbols@.len() && self.map.symbols@[i] == symbol;
            assert(self.map.symbols@[i] == i as u8);
        }
        self.map.chips[symbol as usize]
    }
}

} // verus!
