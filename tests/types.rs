use minimap2::{
    FileFormat, IdxOpt, Junction, MMIndex, MapOpt, Mapping, QuerySequence, SeqMetaData, Strand,
    ThreadLocalBuffer,
};
use std::sync::Arc;

#[test]
fn test_strand_struct() {
    let strand = Strand::default();
    assert_eq!(strand, Strand::Forward);
    println!("{}", strand.symbol());
    let strand = Strand::Reverse;
    println!("{}", strand.symbol());
}

#[test]
fn test_threadlocalbuffer() {
    let tlb = ThreadLocalBuffer::default();
    drop(tlb);
}

#[test]
fn strand_symbols() {
    assert_eq!(Strand::Forward.symbol(), "+");
    assert_eq!(Strand::Reverse.symbol(), "-");
}

#[test]
fn scratch_buffer_keeps_contents_between_uses() {
    let mut tlb = ThreadLocalBuffer::new();
    assert!(tlb.get_buf().is_empty());
    tlb.get_buf().extend_from_slice(b"ACGT");
    assert_eq!(tlb.get_buf().as_slice(), b"ACGT");
}

#[test]
fn junction_new_keeps_fields() {
    let target = Some(Arc::new("chr1".to_string()));
    let query = Some(Arc::new("read7".to_string()));
    let j = Junction::new(target.clone(), 100, 250, query.clone(), 6, Strand::Reverse);
    assert_eq!(j.target_name, target);
    assert_eq!(j.start, 100);
    assert_eq!(j.end, 250);
    assert_eq!(j.query_name, query);
    assert_eq!(j.score, 6);
    assert_eq!(j.strand, Strand::Reverse);
}

#[test]
fn query_sequence_new_keeps_fields() {
    let q = QuerySequence::new("Sample Query".to_string(), b"ACGTN".to_vec());
    assert_eq!(q.id, "Sample Query");
    assert_eq!(q.sequence, b"ACGTN".to_vec());
}

#[test]
fn index_counts_its_sequences() {
    let index = MMIndex {
        seqs: vec![
            SeqMetaData { name: "chr1".to_string(), length: 1720, is_alt: false },
            SeqMetaData { name: "chr2".to_string(), length: 460, is_alt: false },
        ],
    };
    assert_eq!(index.n_seq(), 2);
    assert_eq!(MMIndex { seqs: Vec::new() }.n_seq(), 0);
}

#[test]
fn mapping_default_is_forward_and_empty() {
    let m = Mapping::default();
    assert_eq!(m.strand, Strand::Forward);
    assert_eq!(m.query_name, None);
    assert_eq!(m.alignment, None);
    assert!(FileFormat::FASTA != FileFormat::FASTQ);
}

#[test]
fn lib_mapopt() {
    let _x: MapOpt = Default::default();
    let _y: MapOpt = Default::default();
}

#[test]
fn lib_idxopt() {
    let _x: IdxOpt = Default::default();
}

#[test]
fn option_defaults_are_zero() {
    let m = MapOpt::default();
    assert_eq!(m.flag, 0);
    assert_eq!(m.seed, 0);
    let i = IdxOpt::default();
    assert_eq!((i.k, i.w, i.flag, i.bucket_bits), (0, 0, 0, 0));
}
