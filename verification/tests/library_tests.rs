use gossip_membership::message::capabilities;
use gossip_membership::compression::{
    compress_level, CompressionAlgo, CompressionStats, Compressor, LocalCapabilities,
};

#[test]
fn capability_bits_advertise_lz4() {
    assert_eq!(LocalCapabilities::new(true).to_bits(), capabilities::LZ4);
    assert_eq!(LocalCapabilities::new(false).to_bits(), 0);
    assert!(LocalCapabilities::default().lz4_supported);
}

#[test]
fn negotiation_needs_both_sides() {
    let yes = LocalCapabilities::new(true);
    let no = LocalCapabilities::new(false);
    assert!(yes.should_compress(yes.to_bits()));
    assert!(!yes.should_compress(no.to_bits()));
    assert!(!no.should_compress(yes.to_bits()));
    assert!(!no.should_compress(no.to_bits()));
    // Other capability bits do not count as LZ4 support.
    assert!(!yes.should_compress(0xfe));
    assert!(yes.should_compress(0xff));
}

#[test]
fn algo_names_and_codes() {
    assert_eq!(CompressionAlgo::NoCompression.name(), "none");
    assert_eq!(CompressionAlgo::Lz4.name(), "lz4");
    assert_eq!(CompressionAlgo::default(), CompressionAlgo::NoCompression);
    for a in [CompressionAlgo::NoCompression, CompressionAlgo::Lz4] {
        assert_eq!(CompressionAlgo::from_u8(a.as_u8()), a);
    }
    for v in 2..=255u8 {
        assert_eq!(CompressionAlgo::from_u8(v), CompressionAlgo::NoCompression);
    }
}

#[test]
fn compressor_defaults() {
    let c = Compressor::default();
    assert_eq!(c.algorithm(), CompressionAlgo::Lz4);
    assert!(c.can_compress());
    // the default minimum is 64 bytes
    assert!(c.compress(&[7u8; 63]).is_none());
    assert!(c.compress(&[7u8; 64]).is_some());
    let n = Compressor::new(CompressionAlgo::NoCompression).with_min_size(0);
    assert_eq!(n.algorithm(), CompressionAlgo::NoCompression);
    assert!(!n.can_compress());
    assert!(n.compress(&[1, 2, 3]).is_none());
    assert_eq!(compress_level(), 1);
}

#[test]
fn compressed_payload_prepends_size() {
    let data = vec![42u8; 300];
    let c = Compressor::new(CompressionAlgo::Lz4).with_min_size(0);
    let z = c.compress(&data).unwrap();
    assert_eq!(&z[..4], &300u32.to_le_bytes());
    assert_ne!(z, data);
    assert!(z.len() < data.len());
    assert_eq!(c.decompress(&z).unwrap(), data);
}

#[test]
fn empty_input_roundtrips() {
    let c = Compressor::new(CompressionAlgo::Lz4).with_min_size(0);
    let z = c.compress(&[]).unwrap();
    assert_eq!(&z[..4], &[0, 0, 0, 0]);
    assert_eq!(c.decompress(&z).unwrap(), Vec::<u8>::new());
}

#[test]
fn decompress_refuses_bad_input() {
    let c = Compressor::new(CompressionAlgo::Lz4);
    assert!(c.decompress(&[]).is_none());
    assert!(c.decompress(&[1, 0, 0]).is_none());
    // claims 100 bytes but holds a literal that runs past the input
    assert!(c.decompress(&[100, 0, 0, 0, 0xf0]).is_none());
    let z = c.compress(&[9u8; 100]).unwrap();
    let none = Compressor::new(CompressionAlgo::NoCompression);
    assert!(none.decompress(&z).is_none());
}

#[test]
fn stats_defaults_and_reset() {
    let mut s = CompressionStats::default();
    assert_eq!(s.total_compressions, 0);
    assert_eq!(s.total_compress_ns, u64::MAX);
    assert_eq!(s.total_decompress_ns, u64::MAX);
    assert_eq!(s.avg_compress_time_ns(), 0);
    assert_eq!(s.avg_decompress_time_ns(), 0);
    assert_eq!(s.compression_ratio_fraction(), (1, 1));
    s.record_compress(10, 5, 70);
    s.record_decompress(5, 10, 40);
    s.reset();
    assert_eq!(s.total_compressions, 0);
    assert_eq!(s.total_decompressions, 0);
    assert_eq!(s.bytes_before_compress, 0);
    assert_eq!(s.bytes_after_decompress, 0);
    assert_eq!(s.total_compress_ns, u64::MAX);
}

#[test]
fn stats_keep_smallest_time() {
    let mut s = CompressionStats::default();
    s.record_compress(100, 50, 30);
    s.record_compress(100, 50, 10);
    s.record_compress(100, 50, 20);
    assert_eq!(s.avg_compress_time_ns(), 10);
    assert_eq!(s.total_compressions, 3);
    assert_eq!(s.bytes_before_compress, 300);
    assert_eq!(s.bytes_after_compress, 150);
    // decompression counters are untouched
    assert_eq!(s.total_decompressions, 0);
    assert_eq!(s.avg_decompress_time_ns(), 0);
    s.record_decompress(1, 2, 99);
    s.record_decompress(1, 2, 150);
    assert_eq!(s.avg_decompress_time_ns(), 99);
    assert_eq!(s.bytes_before_decompress, 2);
    assert_eq!(s.bytes_after_decompress, 4);
}

#[test]
fn bandwidth_saved_never_negative() {
    let mut s = CompressionStats::default();
    s.record_compress(10, 25, 1);
    assert_eq!(s.bandwidth_saved(), 0);
    assert_eq!(s.compression_ratio_fraction(), (25, 10));
}

#[test]
fn large_payload_roundtrips() {
    // 20 MB, larger than the longest run of 0xFF length bytes the decoder sums
    let data: Vec<u8> = (0..20_000_000u32).map(|i| (i % 251) as u8).collect();
    let c = Compressor::new(CompressionAlgo::Lz4);
    let z = c.compress(&data).unwrap();
    assert_eq!(&z[..4], &20_000_000u32.to_le_bytes());
    assert_eq!(c.decompress(&z).unwrap(), data);
}
