//! Byte-level patching of machine words in a traced process's memory.
//!
//! Memory of the traced process is read and written one aligned 64-bit word
//! at a time; a software breakpoint replaces a single byte of such a word.
use vstd::prelude::*;

verus! {

/// Number of bytes in a machine word of the traced process.
pub const WORD_SIZE: usize = 8;

/// The opcode of the one-byte trap instruction (`int3`).
pub const TRAP_BYTE: u8 = 0xcc;

/// The byte at little-endian position `k` (`k < 8`) of `word`.
pub open spec fn byte_at(word: u64, k: u64) -> u8 {
    ((word >> (8 * k)) & 0xffu64) as u8
}

/// `word` with the byte at little-endian position `k` replaced by `b`.
pub open spec fn with_byte(word: u64, k: u64, b: u8) -> u64 {
    (word & !(0xffu64 << (8 * k))) | ((b as u64) << (8 * k))
}

/// The start of the word that holds `addr`.
pub open spec fn word_start(addr: usize) -> usize {
    (addr - addr % 8) as usize
}

/// The position of `addr` inside its word.
pub open spec fn word_offset(addr: usize) -> u64 {
    (addr % 8) as u64
}

/// Rounds an address down to the start of the machine word that holds it.
pub fn align_addr_to_word(addr: usize) -> (r: usize)
    ensures
        r == word_start(addr),
        r <= addr,
        addr - r < WORD_SIZE,
{
    let a = addr as u64;
    assert(a & !7u64 == a - (a & 7u64)) by (bit_vector);
    assert(a & 7u64 == a % 8) by (bit_vector);
    (a & !7u64) as usize
}

/// Writes `val` into the byte of `word` that holds `addr`, where `word` is the
/// content of the word starting at `align_addr_to_word(addr)`.
/// Returns the patched word and the byte it replaced.
pub fn patch_word(word: u64, addr: usize, val: u8) -> (r: (u64, u8))
    ensures
        r.0 == with_byte(word, word_offset(addr), val),
        r.1 == byte_at(word, word_offset(addr)),
        byte_at(r.0, word_offset(addr)) == val,
        forall|j: u64| j < 8 && j != word_offset(addr) ==> #[trigger] byte_at(r.0, j) == byte_at(word, j),
{
    let k: u64 = (addr % 8) as u64;
    let shift: u64 = 8 * k;
    let orig = ((word >> shift) & 0xff) as u8;
    let masked = word & !(0xffu64 << shift);
    let updated = masked | ((val as u64) << shift);
    proof {
        lemma_with_byte_reads_back(word, k, val);
        assert forall|j: u64| j < 8 && j != k implies #[trigger] byte_at(updated, j) == byte_at(word, j) by {
            lemma_with_byte_keeps_others(word, k, j, val);
        }
    }
    (updated, orig)
}

/// Reading back a byte just written gives that byte.
pub proof fn lemma_with_byte_reads_back(word: u64, k: u64, b: u8)
    requires
        k < 8,
    ensures
        byte_at(with_byte(word, k, b), k) == b,
{
    let bb = b as u64;
    assert(bb < 256);
    assert(bb < 256 && k < 8 ==> ((((word & !(0xffu64 << (8 * k))) | (bb << (8 * k))) >> (8 * k)) & 0xffu64) == bb) by (bit_vector);
}

/// Writing one byte of a word leaves every other byte of it as it was.
pub proof fn lemma_with_byte_keeps_others(word: u64, k: u64, j: u64, b: u8)
    requires
        k < 8,
        j < 8,
        j != k,
    ensures
        byte_at(with_byte(word, k, b), j) == byte_at(word, j),
{
    let bb = b as u64;
    assert(bb < 256);
    assert(bb < 256 && k < 8 && j < 8 && j != k ==>
        ((((word & !(0xffu64 << (8 * k))) | (bb << (8 * k))) >> (8 * j)) & 0xffu64) == ((word >> (8 * j)) & 0xffu64)) by (bit_vector);
}

/// Patch/restore round trip: writing a trap byte into a word and then writing
/// back the byte it replaced gives the original word, bit for bit.
pub proof fn lemma_patch_restore(word: u64, addr: usize, trap: u8)
    ensures
        with_byte(with_byte(word, word_offset(addr), trap), word_offset(addr), byte_at(word, word_offset(addr))) == word,
{
    let k = word_offset(addr);
    assert(k < 8);
    let bb = byte_at(word, k) as u64;
    let t = trap as u64;
    assert(((word >> (8 * k)) & 0xffu64) < 256) by (bit_vector);
    assert(bb == ((word >> (8 * k)) & 0xffu64));
    assert(t < 256 && k < 8 ==>
        ((((((word & !(0xffu64 << (8 * k))) | (t << (8 * k)))) & !(0xffu64 << (8 * k))) | (((word >> (8 * k)) & 0xffu64) << (8 * k)))) == word) by (bit_vector);
}

} // verus!
