//! Compression support for gossip payloads.
//!
//! Payload compression reduces bandwidth in large clusters. It is
//! negotiated between peers and only applied when both endpoints support
//! it. The algorithm is LZ4 (block format, with the uncompressed size
//! prepended).

use vstd::prelude::*;

use crate::message::capabilities;
use crate::wire::{u32_le, u32_of_le};

verus! {

/// The local node's compression capabilities, advertised to peers and
/// used to negotiate compression.
pub struct LocalCapabilities {
    pub lz4_supported: bool,
}

impl LocalCapabilities {
    /// The capability byte that advertises these capabilities.
    pub open spec fn bits_spec(self) -> u8 {
        if self.lz4_supported {
            capabilities::LZ4
        } else {
            0
        }
    }

    /// Whether we compress for a peer that advertised `peer_capabilities`.
    pub open spec fn should_compress_spec(self, peer_capabilities: u8) -> bool {
        self.lz4_supported && (peer_capabilities & capabilities::LZ4) != 0
    }

    pub fn new(lz4_supported: bool) -> (r: Self)
        ensures
            r.lz4_supported == lz4_supported,
    {
        Self { lz4_supported }
    }

    /// Convert to bitflags for wire transmission.
    pub fn to_bits(&self) -> (bits: u8)
        ensures
            bits == self.bits_spec(),
            bits == (if self.lz4_supported { 1u8 } else { 0u8 }),
    {
        let mut bits = 0u8;
        if self.lz4_supported {
            bits |= capabilities::LZ4;
            assert(0u8 | 1u8 == 1u8) by (bit_vector);
        }
        bits
    }

    /// Check if we should compress for a given peer: true iff both we and
    /// the peer support compression.
    pub fn should_compress(&self, peer_capabilities: u8) -> (r: bool)
        ensures
            r == self.should_compress_spec(peer_capabilities),
            r == (self.lz4_supported && peer_capabilities % 2 == 1),
    {
        proof {
            lemma_lz4_bit_is_parity(peer_capabilities);
        }
        self.lz4_supported && (peer_capabilities & capabilities::LZ4) != 0
    }
}

/// The LZ4 capability is the lowest bit: a byte advertises it exactly when
/// it is odd.
proof fn lemma_lz4_bit_is_parity(p: u8)
    ensures
        ((p & capabilities::LZ4) != 0) == (p % 2 == 1),
{
    assert(((p & 1u8) != 0u8) == (p % 2 == 1)) by (bit_vector);
}

/// We compress for a peer exactly when we support LZ4 and the peer's
/// capability byte has the LZ4 bit; its other bits never change the
/// decision.
pub proof fn lemma_should_compress_reads_lz4_bit(local: LocalCapabilities, peer_capabilities: u8)
    ensures
        local.should_compress_spec(peer_capabilities) == (local.lz4_supported && peer_capabilities
            % 2 == 1),
        local.should_compress_spec(peer_capabilities) == local.should_compress_spec(
            peer_capabilities & capabilities::LZ4,
        ),
{
    lemma_lz4_bit_is_parity(peer_capabilities);
    let q = peer_capabilities & 1u8;
    assert((q & 1u8) == q) by (bit_vector)
        requires
            q == peer_capabilities & 1u8,
    ;
}

impl Default for LocalCapabilities {
    fn default() -> (r: Self)
        ensures
            r.lz4_supported,
    {
        Self { lz4_supported: true }
    }
}

/// Negotiation: we compress for a peer exactly when both we and the peer
/// advertise LZ4 support.
pub proof fn lemma_negotiation_needs_both(local: LocalCapabilities, peer: LocalCapabilities)
    ensures
        local.should_compress_spec(peer.bits_spec()) == (local.lz4_supported
            && peer.lz4_supported),
{
    assert(1u8 & 1u8 != 0u8) by (bit_vector);
    assert(0u8 & 1u8 == 0u8) by (bit_vector);
}

/// Negotiation is symmetric: two nodes agree on whether to compress
/// between them.
pub proof fn lemma_negotiation_symmetric(a: LocalCapabilities, b: LocalCapabilities)
    ensures
        a.should_compress_spec(b.bits_spec()) == b.should_compress_spec(a.bits_spec()),
{
    lemma_negotiation_needs_both(a, b);
    lemma_negotiation_needs_both(b, a);
}

/// The compression algorithm applied to a payload, with its wire code.
#[derive(Debug, Clone, Copy, PartialEq, Eq, Structural)]
pub enum CompressionAlgo {
    NoCompression,
    Lz4,
}

impl CompressionAlgo {
    /// The algorithm's code on the wire.
    pub open spec fn code(self) -> u8 {
        match self {
            CompressionAlgo::NoCompression => 0,
            CompressionAlgo::Lz4 => 1,
        }
    }

    /// The algorithm a wire code stands for: every code but that of LZ4
    /// reads as no compression.
    pub open spec fn from_code(v: u8) -> CompressionAlgo {
        if v == 1 {
            CompressionAlgo::Lz4
        } else {
            CompressionAlgo::NoCompression
        }
    }

    pub fn as_u8(self) -> (r: u8)
        ensures
            r == self.code(),
            self == CompressionAlgo::NoCompression ==> r == 0,
            self == CompressionAlgo::Lz4 ==> r == 1,
    {
        match self {
            Self::NoCompression => 0,
            Self::Lz4 => 1,
        }
    }

    pub fn from_u8(v: u8) -> (r: Self)
        ensures
            r == Self::from_code(v),
            r == CompressionAlgo::Lz4 <==> v == 1,
    {
        match v {
            1 => Self::Lz4,
            _ => Self::NoCompression,
        }
    }

    pub fn name(self) -> (r: &'static str)
        ensures
            self == CompressionAlgo::NoCompression ==> r@ == "none"@,
            self == CompressionAlgo::Lz4 ==> r@ == "lz4"@,
    {
        match self {
            Self::NoCompression => "none",
            Self::Lz4 => "lz4",
        }
    }
}

impl Default for CompressionAlgo {
    fn default() -> (r: Self)
        ensures
            r == CompressionAlgo::NoCompression,
    {
        CompressionAlgo::NoCompression
    }
}

/// Every algorithm reads back from its own wire code.
pub proof fn lemma_algo_code_roundtrip(a: CompressionAlgo)
    ensures
        CompressionAlgo::from_code(a.code()) == a,
{
}

/// A wire code reads back to itself exactly when it is the code of an
/// algorithm (0 or 1); any other code reads as no compression.
pub proof fn lemma_code_algo_roundtrip(v: u8)
    ensures
        CompressionAlgo::from_code(v).code() == v <==> v <= 1,
        v > 1 ==> CompressionAlgo::from_code(v) == CompressionAlgo::NoCompression,
{
}

/// The result of LZ4 block decompression of a size-prepended `input`, or
/// `None` where the input is refused.
pub uninterp spec fn lz4_decompress_size_prepended(input: Seq<u8>) -> Option<Seq<u8>>;

/// Largest input whose compression does not overflow the size computation
/// of the outside compressor.
pub open spec fn lz4_input_len_ok(len: nat) -> bool {
    len * 110 <= usize::MAX
}

/// The most bytes that size-prepended LZ4 compression of `len` bytes
/// gives: four size bytes and the compressor's output bound.
pub open spec fn lz4_max_output(len: nat) -> nat {
    24 + len * 110 / 100
}

/// Whether `s` holds `k` bytes `0xFF` from position `i` on.
pub open spec fn ff_run_at(s: Seq<u8>, i: int, k: nat) -> bool {
    &&& 0 <= i
    &&& i + k <= s.len()
    &&& forall|j: int| i <= j < i + k ==> s[j] == 0xFF
}

/// Whether no run of `0xFF` bytes in `s` is longer than `n`.
pub open spec fn ff_runs_at_most(s: Seq<u8>, n: nat) -> bool {
    forall|i: int, k: nat| #[trigger] ff_run_at(s, i, k) ==> k <= n
}

/// Whether the length that LZ4 decoding sums up over a run of `k` bytes
/// `0xFF` (and one more byte) fits a `u32`, and added to an output position
/// (at most `isize::MAX`) and the largest token length fits a `usize`.
pub open spec fn lz4_run_len_ok(k: nat) -> bool {
    &&& 255 * k + 254 <= u32::MAX
    &&& 255 * k + 273 + isize::MAX <= usize::MAX
}

/// Inputs on which the outside decompressor computes no length that
/// overflows: no run of `0xFF` bytes is so long that a length summed over
/// it overflows; and the announced size can be allocated.
pub open spec fn lz4_decompress_input_ok(data: Seq<u8>) -> bool {
    &&& forall|i: int, k: nat| #[trigger] ff_run_at(data, i, k) ==> lz4_run_len_ok(k)
    &&& data.len() >= 4 ==> u32_of_le(data.subrange(0, 4)) <= isize::MAX
}

/// Inputs whose size-prepended LZ4 compression is known to satisfy
/// `lz4_decompress_input_ok`: the length fits a `u32` and an `isize`, and
/// either the whole compressed output is short enough, or the input's runs
/// of `0xFF` bytes are.
pub open spec fn lz4_compress_decodable(data: Seq<u8>) -> bool {
    &&& data.len() <= u32::MAX
    &&& data.len() <= isize::MAX
    &&& (lz4_run_len_ok(lz4_max_output(data.len())) || exists|n: nat|
        ff_runs_at_most(data, n) && #[trigger] lz4_run_len_ok(n + 8 + data.len() / 255))
}

#[verifier::external_type_specification]
#[verifier::external_body]
pub struct ExDecompressError(lz4_flex::block::DecompressError);

/// Calls `lz4_flex::block::compress_prepend_size`. Trusted: the result is
/// at least the four size bytes long and at most `lz4_max_output` of the
/// input length; for inputs whose length fits a `u32`, the first four bytes
/// are that length in little endian and `decompress_size_prepended` gives
/// the input back (as the crate documents). Which compressed bytes come out
/// is left unsaid: the crate's match finder differs between targets. Runs
/// of `0xFF` in the output are at most 8 + len / 255 longer than those of the
/// input: every output byte is one of the four size bytes, a token, a
/// literal copied from the input, one of the two bytes of an offset, or a
/// length extension (`write_integer`: bytes `0xFF`, each standing for 255
/// of a length of at most the input length, then a byte below `0xFF`); so a
/// run holds at most a tail of copied literals, an offset, a token and one
/// extension (or the size bytes, a token and one extension).
#[verifier::external_body]
fn compress_lz4(data: &[u8]) -> (r: Vec<u8>)
    requires
        lz4_input_len_ok(data@.len()),
    ensures
        forall|n: nat| #[trigger]
            ff_runs_at_most(data@, n) ==> ff_runs_at_most(r@, n + 8 + data@.len() / 255),
        r@.len() >= 4,
        r@.len() <= lz4_max_output(data@.len()),
        data@.len() <= u32::MAX ==> r@.take(4) == u32_le(data@.len() as u32),
        data@.len() <= u32::MAX ==> lz4_decompress_size_prepended(r@) == Some(data@),
{
    lz4_flex::block::compress_prepend_size(data)
}

/// Calls `lz4_flex::block::decompress_size_prepended`. Trusted: it succeeds
/// exactly when `lz4_decompress_size_prepended` of the input is `Some`, and
/// then gives that value; an input shorter than the four size bytes is
/// refused. Inputs outside `lz4_decompress_input_ok` are left out: there
/// the crate's run-length sums can overflow and panic.
#[verifier::external_body]
fn decompress_lz4(data: &[u8]) -> (r: Result<Vec<u8>, lz4_flex::block::DecompressError>)
    requires
        lz4_decompress_input_ok(data@),
    ensures
        match r {
            Ok(v) => lz4_decompress_size_prepended(data@) == Some(v@),
            Err(_) => lz4_decompress_size_prepended(data@) is None,
        },
        data@.len() < 4 ==> r is Err,
{
    lz4_flex::block::decompress_size_prepended(data)
}

/// The abstract state of a `Compressor`.
pub struct CompressorView {
    pub algo: CompressionAlgo,
    pub min_size: nat,
}

/// Compresses and decompresses payloads with one algorithm; payloads
/// shorter than a minimum size are left uncompressed.
pub struct Compressor {
    algo: CompressionAlgo,
    min_size_for_compress: usize,
}

/// Whether a compressor in state `c` compresses `len` bytes: it uses LZ4
/// and the data is not shorter than its minimum size.
pub open spec fn compresses_len(c: CompressorView, len: nat) -> bool {
    c.algo == CompressionAlgo::Lz4 && len >= c.min_size
}

/// What `Compressor::decompress` gives for a compressor in state `c`.
pub open spec fn decompress_spec(c: CompressorView, data: Seq<u8>) -> Option<Seq<u8>> {
    match c.algo {
        CompressionAlgo::NoCompression => None,
        CompressionAlgo::Lz4 => lz4_decompress_size_prepended(data),
    }
}

/// A compressor compresses exactly the data, of its algorithm LZ4, that is
/// not shorter than its minimum size.
pub proof fn lemma_compress_threshold(c: CompressorView, len: nat)
    ensures
        compresses_len(c, len) <==> (c.algo == CompressionAlgo::Lz4 && c.min_size <= len),
        len < c.min_size ==> !compresses_len(c, len),
        c.algo == CompressionAlgo::NoCompression ==> !compresses_len(c, len),
{
}

/// Decompression depends on the algorithm alone, not on the minimum size:
/// with LZ4 it is LZ4 block decompression, without compression it gives
/// nothing.
pub proof fn lemma_decompress_ignores_min_size(c1: CompressorView, c2: CompressorView, data: Seq<u8>)
    ensures
        c1.algo == c2.algo ==> decompress_spec(c1, data) == decompress_spec(c2, data),
        c1.algo == CompressionAlgo::Lz4 ==> decompress_spec(c1, data)
            == lz4_decompress_size_prepended(data),
        c1.algo == CompressionAlgo::NoCompression ==> decompress_spec(c1, data) is None,
{
}

/// The bytes an optional buffer holds.
pub open spec fn opt_bytes(o: Option<Vec<u8>>) -> Option<Seq<u8>> {
    match o {
        Some(v) => Some(v@),
        None => None,
    }
}

impl View for Compressor {
    type V = CompressorView;

    closed spec fn view(&self) -> CompressorView {
        CompressorView { algo: self.algo, min_size: self.min_size_for_compress as nat }
    }
}

/// What compression promises of its output makes it an input that the
/// decompressor takes.
proof fn lemma_compressed_decodable(data: Seq<u8>, z: Seq<u8>)
    requires
        lz4_compress_decodable(data),
        4 <= z.len() <= lz4_max_output(data.len()),
        z.take(4) == u32_le(data.len() as u32),
        forall|n: nat| #[trigger]
            ff_runs_at_most(data, n) ==> ff_runs_at_most(z, n + 8 + data.len() / 255),
    ensures
        lz4_decompress_input_ok(z),
{
    assert(z.subrange(0, 4) =~= z.take(4));
    crate::wire::lemma_u32_le_roundtrip(data.len() as u32);
    if lz4_run_len_ok(lz4_max_output(data.len())) {
        assert forall|i: int, k: nat| #[trigger] ff_run_at(z, i, k) implies lz4_run_len_ok(k) by {}
    } else {
        let n = choose|n: nat| ff_runs_at_most(data, n) && #[trigger] lz4_run_len_ok(
            n + 8 + data.len() / 255,
        );
        assert(ff_runs_at_most(z, n + 8 + data.len() / 255));
        assert forall|i: int, k: nat| #[trigger] ff_run_at(z, i, k) implies lz4_run_len_ok(k) by {}
    }
}

impl Compressor {
    pub fn new(algo: CompressionAlgo) -> (r: Self)
        ensures
            r@.algo == algo,
            r@.min_size == 64,
    {
        Self { algo, min_size_for_compress: 64 }
    }

    pub fn with_min_size(self, min_size: usize) -> (r: Self)
        ensures
            r@.algo == self@.algo,
            r@.min_size == min_size,
    {
        let mut c = self;
        c.min_size_for_compress = min_size;
        c
    }

    pub fn algorithm(&self) -> (r: CompressionAlgo)
        ensures
            r == self@.algo,
    {
        self.algo
    }

    /// Compresses `data`, or gives `None` where it is shorter than the
    /// minimum size or the algorithm is `NoCompression`. What it gives back
    /// is at most `lz4_max_output` bytes long, starts with the length of
    /// `data` as four little-endian bytes and decompresses, with the same
    /// compressor, to `data`. Which compressed bytes come out is left
    /// unsaid: the outside compressor's output differs between targets.
    pub fn compress(&self, data: &[u8]) -> (r: Option<Vec<u8>>)
        requires
            self@.algo == CompressionAlgo::Lz4 && data@.len() >= self@.min_size ==> lz4_input_len_ok(
                data@.len(),
            ),
        ensures
            r is Some <==> compresses_len(self@, data@.len()),
            r is Some <==> (self@.algo == CompressionAlgo::Lz4 && data@.len() >= self@.min_size),
            data@.len() <= u32::MAX ==> (r matches Some(z) ==> lz4_decompress_size_prepended(z@)
                == Some(data@)),
            data@.len() <= u32::MAX ==> (r matches Some(z) ==> forall|other: CompressorView|
                other.algo == CompressionAlgo::Lz4 ==> #[trigger] decompress_spec(other, z@) == Some(
                    data@,
                )),
            r matches Some(z) ==> 4 <= z@.len() <= lz4_max_output(data@.len()),
            data@.len() <= u32::MAX ==> (r matches Some(z) ==> decompress_spec(self@, z@) == Some(
                data@,
            )),
            data@.len() <= u32::MAX ==> (r matches Some(z) ==> z@.take(4) == u32_le(
                data@.len() as u32,
            )),
            forall|n: nat| #[trigger]
                ff_runs_at_most(data@, n) ==> (r matches Some(z) ==> ff_runs_at_most(
                    z@,
                    n + 8 + data@.len() / 255,
                )),
            r matches Some(z) ==> (lz4_compress_decodable(data@) ==> lz4_decompress_input_ok(z@)),
    {
        if data.len() < self.min_size_for_compress {
            return None;
        }
        match self.algo {
            CompressionAlgo::NoCompression => None,
            CompressionAlgo::Lz4 => {
                let z = compress_lz4(data);
                proof {
                    if lz4_compress_decodable(data@) {
                        lemma_compressed_decodable(data@, z@);
                    }
                }
                Some(z)
            },
        }
    }

    /// Decompresses `data`, or gives `None` where the algorithm is `NoCompression` or
    /// the data is not a valid size-prepended LZ4 block.
    pub fn decompress(&self, data: &[u8]) -> (r: Option<Vec<u8>>)
        requires
            self@.algo == CompressionAlgo::Lz4 ==> lz4_decompress_input_ok(data@),
        ensures
            opt_bytes(r) == decompress_spec(self@, data@),
            self@.algo == CompressionAlgo::Lz4 ==> opt_bytes(r) == lz4_decompress_size_prepended(
                data@,
            ),
            self@.algo == CompressionAlgo::NoCompression ==> r is None,
            self@.algo == CompressionAlgo::Lz4 && data@.len() < 4 ==> r is None,
    {
        match self.algo {
            CompressionAlgo::NoCompression => None,
            CompressionAlgo::Lz4 => match decompress_lz4(data) {
                Ok(v) => Some(v),
                Err(_) => None,
            },
        }
    }

    pub fn can_compress(&self) -> (r: bool)
        ensures
            r == (self@.algo != CompressionAlgo::NoCompression),
    {
        self.algo != CompressionAlgo::NoCompression
    }
}

impl Default for Compressor {
    fn default() -> (r: Self)
        ensures
            r@.algo == CompressionAlgo::Lz4,
            r@.min_size == 64,
    {
        Self { algo: CompressionAlgo::Lz4, min_size_for_compress: 64 }
    }
}

/// Counters of compression work. The `*_ns` fields hold the smallest
/// elapsed time recorded so far (`u64::MAX` before the first record).
pub struct CompressionStats {
    pub total_compressions: u64,
    pub total_decompressions: u64,
    pub bytes_before_compress: u64,
    pub bytes_after_compress: u64,
    pub bytes_before_decompress: u64,
    pub bytes_after_decompress: u64,
    pub total_compress_ns: u64,
    pub total_decompress_ns: u64,
}

/// The smaller of two times.
pub open spec fn min_u64(a: u64, b: u64) -> u64 {
    if b < a {
        b
    } else {
        a
    }
}

impl CompressionStats {
    /// Fresh statistics: no work recorded.
    pub open spec fn initial() -> CompressionStats {
        CompressionStats {
            total_compressions: 0,
            total_decompressions: 0,
            bytes_before_compress: 0,
            bytes_after_compress: 0,
            bytes_before_decompress: 0,
            bytes_after_decompress: 0,
            total_compress_ns: u64::MAX,
            total_decompress_ns: u64::MAX,
        }
    }

    /// Whether one more compression of `before` bytes into `after` bytes
    /// can be recorded without overflowing a counter.
    pub open spec fn can_record_compress(self, before: nat, after: nat) -> bool {
        &&& self.total_compressions < u64::MAX
        &&& self.bytes_before_compress + before <= u64::MAX
        &&& self.bytes_after_compress + after <= u64::MAX
    }

    /// Whether one more decompression of `before` bytes into `after` bytes
    /// can be recorded without overflowing a counter.
    pub open spec fn can_record_decompress(self, before: nat, after: nat) -> bool {
        &&& self.total_decompressions < u64::MAX
        &&& self.bytes_before_decompress + before <= u64::MAX
        &&& self.bytes_after_decompress + after <= u64::MAX
    }

    /// The statistics after recording one compression.
    pub open spec fn after_compress(self, before: nat, after: nat, elapsed_ns: u64) -> CompressionStats {
        CompressionStats {
            total_compressions: (self.total_compressions + 1) as u64,
            bytes_before_compress: (self.bytes_before_compress + before) as u64,
            bytes_after_compress: (self.bytes_after_compress + after) as u64,
            total_compress_ns: min_u64(self.total_compress_ns, elapsed_ns),
            ..self
        }
    }

    /// The statistics after recording one decompression.
    pub open spec fn after_decompress(self, before: nat, after: nat, elapsed_ns: u64) -> CompressionStats {
        CompressionStats {
            total_decompressions: (self.total_decompressions + 1) as u64,
            bytes_before_decompress: (self.bytes_before_decompress + before) as u64,
            bytes_after_decompress: (self.bytes_after_decompress + after) as u64,
            total_decompress_ns: min_u64(self.total_decompress_ns, elapsed_ns),
            ..self
        }
    }

    pub fn record_compress(&mut self, before: usize, after: usize, elapsed_ns: u64)
        requires
            old(self).can_record_compress(before as nat, after as nat),
        ensures
            *final(self) == old(self).after_compress(before as nat, after as nat, elapsed_ns),
            final(self).total_compressions == old(self).total_compressions + 1,
            final(self).bytes_before_compress == old(self).bytes_before_compress + before,
            final(self).bytes_after_compress == old(self).bytes_after_compress + after,
            final(self).total_compress_ns == if elapsed_ns < old(self).total_compress_ns {
                elapsed_ns
            } else {
                old(self).total_compress_ns
            },
            final(self).total_decompressions == old(self).total_decompressions,
            final(self).bytes_before_decompress == old(self).bytes_before_decompress,
            final(self).bytes_after_decompress == old(self).bytes_after_decompress,
            final(self).total_decompress_ns == old(self).total_decompress_ns,
    {
        self.total_compressions += 1;
        self.bytes_before_compress += before as u64;
        self.bytes_after_compress += after as u64;
        self.total_compress_ns = self.total_compress_ns.min(elapsed_ns);
    }

    pub fn record_decompress(&mut self, before: usize, after: usize, elapsed_ns: u64)
        requires
            old(self).can_record_decompress(before as nat, after as nat),
        ensures
            *final(self) == old(self).after_decompress(before as nat, after as nat, elapsed_ns),
            final(self).total_decompressions == old(self).total_decompressions + 1,
            final(self).bytes_before_decompress == old(self).bytes_before_decompress + before,
            final(self).bytes_after_decompress == old(self).bytes_after_decompress + after,
            final(self).total_decompress_ns == if elapsed_ns < old(self).total_decompress_ns {
                elapsed_ns
            } else {
                old(self).total_decompress_ns
            },
            final(self).total_compressions == old(self).total_compressions,
            final(self).bytes_before_compress == old(self).bytes_before_compress,
            final(self).bytes_after_compress == old(self).bytes_after_compress,
            final(self).total_compress_ns == old(self).total_compress_ns,
    {
        self.total_decompressions += 1;
        self.bytes_before_decompress += before as u64;
        self.bytes_after_decompress += after as u64;
        self.total_decompress_ns = self.total_decompress_ns.min(elapsed_ns);
    }

    /// The compression ratio (bytes after over bytes before) as a fraction
    /// `(numerator, denominator)`; `(1, 1)` when nothing was compressed.
    pub fn compression_ratio_fraction(&self) -> (r: (u64, u64))
        ensures
            self.bytes_before_compress == 0 ==> r == (1u64, 1u64),
            self.bytes_before_compress != 0 ==> r == (self.bytes_after_compress, self.bytes_before_compress),
            r.1 != 0,
    {
        if self.bytes_before_compress == 0 {
            return (1, 1);
        }
        (self.bytes_after_compress, self.bytes_before_compress)
    }

    /// Bytes that compression saved, or 0 where it grew the data.
    pub fn bandwidth_saved(&self) -> (r: u64)
        ensures
            r == if self.bytes_before_compress >= self.bytes_after_compress {
                (self.bytes_before_compress - self.bytes_after_compress) as u64
            } else {
                0u64
            },
    {
        self.bytes_before_compress.saturating_sub(self.bytes_after_compress)
    }

    pub fn avg_compress_time_ns(&self) -> (r: u64)
        ensures
            r == if self.total_compressions == 0 {
                0u64
            } else {
                self.total_compress_ns
            },
    {
        if self.total_compressions == 0 {
            return 0;
        }
        self.total_compress_ns
    }

    pub fn avg_decompress_time_ns(&self) -> (r: u64)
        ensures
            r == if self.total_decompressions == 0 {
                0u64
            } else {
                self.total_decompress_ns
            },
    {
        if self.total_decompressions == 0 {
            return 0;
        }
        self.total_decompress_ns
    }

    pub fn reset(&mut self)
        ensures
            *final(self) == CompressionStats::initial(),
    {
        *self = Self::default();
    }
}

impl Default for CompressionStats {
    fn default() -> (r: Self)
        ensures
            r == CompressionStats::initial(),
    {
        Self {
            total_compressions: 0,
            total_decompressions: 0,
            bytes_before_compress: 0,
            bytes_after_compress: 0,
            bytes_before_decompress: 0,
            bytes_after_decompress: 0,
            total_compress_ns: u64::MAX,
            total_decompress_ns: u64::MAX,
        }
    }
}

/// Recording a compression counts it, adds its sizes, keeps the smaller of
/// the fastest compression time so far and its time, and leaves every
/// decompression counter as it was.
pub proof fn lemma_record_compress_fields(s: CompressionStats, before: nat, after: nat, elapsed_ns: u64)
    requires
        s.can_record_compress(before, after),
    ensures
        s.after_compress(before, after, elapsed_ns).total_compressions == s.total_compressions + 1,
        s.after_compress(before, after, elapsed_ns).bytes_before_compress == s.bytes_before_compress
            + before,
        s.after_compress(before, after, elapsed_ns).bytes_after_compress == s.bytes_after_compress
            + after,
        s.after_compress(before, after, elapsed_ns).total_compress_ns <= elapsed_ns,
        s.after_compress(before, after, elapsed_ns).total_compress_ns <= s.total_compress_ns,
        s.after_compress(before, after, elapsed_ns).total_compress_ns == elapsed_ns
            || s.after_compress(before, after, elapsed_ns).total_compress_ns == s.total_compress_ns,
        s.after_compress(before, after, elapsed_ns).total_decompressions == s.total_decompressions,
        s.after_compress(before, after, elapsed_ns).bytes_before_decompress
            == s.bytes_before_decompress,
        s.after_compress(before, after, elapsed_ns).bytes_after_decompress
            == s.bytes_after_decompress,
        s.after_compress(before, after, elapsed_ns).total_decompress_ns == s.total_decompress_ns,
{
}

/// Recording a decompression counts it, adds its sizes, keeps the smaller of
/// the fastest decompression time so far and its time, and leaves every
/// compression counter as it was.
pub proof fn lemma_record_decompress_fields(s: CompressionStats, before: nat, after: nat, elapsed_ns: u64)
    requires
        s.can_record_decompress(before, after),
    ensures
        s.after_decompress(before, after, elapsed_ns).total_decompressions == s.total_decompressions
            + 1,
        s.after_decompress(before, after, elapsed_ns).bytes_before_decompress
            == s.bytes_before_decompress + before,
        s.after_decompress(before, after, elapsed_ns).bytes_after_decompress
            == s.bytes_after_decompress + after,
        s.after_decompress(before, after, elapsed_ns).total_decompress_ns <= elapsed_ns,
        s.after_decompress(before, after, elapsed_ns).total_decompress_ns <= s.total_decompress_ns,
        s.after_decompress(before, after, elapsed_ns).total_decompress_ns == elapsed_ns
            || s.after_decompress(before, after, elapsed_ns).total_decompress_ns
            == s.total_decompress_ns,
        s.after_decompress(before, after, elapsed_ns).total_compressions == s.total_compressions,
        s.after_decompress(before, after, elapsed_ns).bytes_before_compress
            == s.bytes_before_compress,
        s.after_decompress(before, after, elapsed_ns).bytes_after_compress
            == s.bytes_after_compress,
        s.after_decompress(before, after, elapsed_ns).total_compress_ns == s.total_compress_ns,
{
}

/// Compression and decompression records do not interfere: recording a
/// decompression before a compression leaves the compression counters as
/// recording the compression alone would, and the other way round.
pub proof fn lemma_records_independent(
    s: CompressionStats,
    c_before: nat,
    c_after: nat,
    c_ns: u64,
    d_before: nat,
    d_after: nat,
    d_ns: u64,
)
    requires
        s.can_record_compress(c_before, c_after),
        s.can_record_decompress(d_before, d_after),
    ensures
        s.after_decompress(d_before, d_after, d_ns).after_compress(c_before, c_after, c_ns)
            == s.after_compress(c_before, c_after, c_ns).after_decompress(d_before, d_after, d_ns),
        s.after_decompress(d_before, d_after, d_ns).after_compress(
            c_before,
            c_after,
            c_ns,
        ).total_compress_ns == s.after_compress(c_before, c_after, c_ns).total_compress_ns,
        s.after_compress(c_before, c_after, c_ns).after_decompress(
            d_before,
            d_after,
            d_ns,
        ).total_decompress_ns == s.after_decompress(d_before, d_after, d_ns).total_decompress_ns,
{
}

/// A recorded operation: bytes before, bytes after, elapsed nanoseconds.
pub type Record = (nat, nat, u64);

/// The statistics after recording `events` as compressions, in order,
/// starting from `s`.
pub open spec fn replay_compressions(s: CompressionStats, events: Seq<Record>) -> CompressionStats
    decreases events.len(),
{
    if events.len() == 0 {
        s
    } else {
        let e = events.last();
        replay_compressions(s, events.drop_last()).after_compress(e.0, e.1, e.2)
    }
}

/// Total bytes before compression over `events`.
pub open spec fn sum_before(events: Seq<Record>) -> nat
    decreases events.len(),
{
    if events.len() == 0 {
        0
    } else {
        sum_before(events.drop_last()) + events.last().0
    }
}

/// Total bytes after compression over `events`.
pub open spec fn sum_after(events: Seq<Record>) -> nat
    decreases events.len(),
{
    if events.len() == 0 {
        0
    } else {
        sum_after(events.drop_last()) + events.last().1
    }
}

/// The smallest elapsed time over `events`, `u64::MAX` for none.
pub open spec fn min_elapsed(events: Seq<Record>) -> u64
    decreases events.len(),
{
    if events.len() == 0 {
        u64::MAX
    } else {
        min_u64(min_elapsed(events.drop_last()), events.last().2)
    }
}

/// Recording compressions into fresh statistics counts them, sums their
/// sizes, keeps the smallest elapsed time, and leaves the decompression
/// counters untouched; every step of the way a record can be made without
/// overflow, provided the totals fit a `u64`.
pub proof fn lemma_compress_stats_track(events: Seq<Record>)
    requires
        events.len() <= u64::MAX,
        sum_before(events) <= u64::MAX,
        sum_after(events) <= u64::MAX,
    ensures
        forall|k: int|
            0 <= k < events.len() ==> #[trigger] replay_compressions(
                CompressionStats::initial(),
                events.take(k),
            ).can_record_compress(events[k].0, events[k].1),
        replay_compressions(CompressionStats::initial(), events) == (CompressionStats {
            total_compressions: events.len() as u64,
            bytes_before_compress: sum_before(events) as u64,
            bytes_after_compress: sum_after(events) as u64,
            total_compress_ns: min_elapsed(events),
            ..CompressionStats::initial()
        }),
    decreases events.len(),
{
    if events.len() > 0 {
        let prefix = events.drop_last();
        lemma_compress_stats_track(prefix);
        assert forall|k: int|
            0 <= k < events.len() implies #[trigger] replay_compressions(
                CompressionStats::initial(),
                events.take(k),
            ).can_record_compress(events[k].0, events[k].1) by {
            if k < prefix.len() {
                assert(events.take(k) == prefix.take(k));
                assert(events[k] == prefix[k]);
            } else {
                assert(events.take(k) == prefix);
            }
        }
    }
}

/// The statistics after recording `events` as decompressions, in order,
/// starting from `s`.
pub open spec fn replay_decompressions(s: CompressionStats, events: Seq<Record>) -> CompressionStats
    decreases events.len(),
{
    if events.len() == 0 {
        s
    } else {
        let e = events.last();
        replay_decompressions(s, events.drop_last()).after_decompress(e.0, e.1, e.2)
    }
}

/// Recording decompressions into fresh statistics counts them, sums their
/// sizes, keeps the smallest elapsed time, and leaves the compression
/// counters untouched; every step of the way a record can be made without
/// overflow, provided the totals fit a `u64`.
pub proof fn lemma_decompress_stats_track(events: Seq<Record>)
    requires
        events.len() <= u64::MAX,
        sum_before(events) <= u64::MAX,
        sum_after(events) <= u64::MAX,
    ensures
        forall|k: int|
            0 <= k < events.len() ==> #[trigger] replay_decompressions(
                CompressionStats::initial(),
                events.take(k),
            ).can_record_decompress(events[k].0, events[k].1),
        replay_decompressions(CompressionStats::initial(), events) == (CompressionStats {
            total_decompressions: events.len() as u64,
            bytes_before_decompress: sum_before(events) as u64,
            bytes_after_decompress: sum_after(events) as u64,
            total_decompress_ns: min_elapsed(events),
            ..CompressionStats::initial()
        }),
    decreases events.len(),
{
    if events.len() > 0 {
        let prefix = events.drop_last();
        lemma_decompress_stats_track(prefix);
        assert forall|k: int|
            0 <= k < events.len() implies #[trigger] replay_decompressions(
                CompressionStats::initial(),
                events.take(k),
            ).can_record_decompress(events[k].0, events[k].1) by {
            if k < prefix.len() {
                assert(events.take(k) == prefix.take(k));
                assert(events[k] == prefix[k]);
            } else {
                assert(events.take(k) == prefix);
            }
        }
    }
}

/// The compression level in use; LZ4 block compression has a single level.
pub fn compress_level() -> (r: i32)
    ensures
        r == 1,
{
    1
}

} // verus!
