//! The records an alignment produces and the small types around them.
use vstd::prelude::*;

use std::sync::Arc;

verus! {

/// The strand a query maps to.
#[derive(Debug, PartialEq, Eq, Copy, Clone, Structural)]
pub enum Strand {
    Forward,
    Reverse,
}

impl Default for Strand {
    fn default() -> (s: Strand)
        ensures
            s == Strand::Forward,
    {
        Strand::Forward
    }
}

impl Strand {
    /// The one-character form used in PAF and SAM-style output.
    pub open spec fn symbol_spec(self) -> &'static str {
        match self {
            Strand::Forward => "+",
            Strand::Reverse => "-",
        }
    }

    pub fn symbol(&self) -> (r: &'static str)
        ensures
            r == self.symbol_spec(),
    {
        match self {
            Strand::Forward => "+",
            Strand::Reverse => "-",
        }
    }
}

/// The presets the aligner can be configured with.
#[derive(Debug, Clone, Copy, PartialEq, Eq, Structural)]
pub enum Preset {
    LrHqae,
    LrHq,
    Splice,
    SpliceHq,
    SpliceSr,
    Asm,
    Asm5,
    Asm10,
    Asm20,
    Sr,
    MapPb,
    MapHifi,
    MapOnt,
    AvaPb,
    AvaOnt,
    Short,
    Map10k,
    Cdna,
}

/// A splice junction and its score.
#[derive(Debug, Clone)]
pub struct Junction {
    pub target_name: Option<Arc<String>>,
    pub start: u32,
    pub end: u32,
    pub query_name: Option<Arc<String>>,
    pub score: u32,
    pub strand: Strand,
}

impl Junction {
    pub fn new(
        target_name: Option<Arc<String>>,
        start: u32,
        end: u32,
        query_name: Option<Arc<String>>,
        score: u32,
        strand: Strand,
    ) -> (j: Self)
        ensures
            j.target_name == target_name,
            j.start == start,
            j.end == end,
            j.query_name == query_name,
            j.score == score,
            j.strand == strand,
    {
        Junction { target_name, start, end, query_name, score, strand }
    }
}

/// The kind of an alignment.
#[derive(Debug, Clone, Copy, PartialEq, Eq, Structural)]
pub enum AlignmentType {
    Primary,
    Secondary,
    Inversion,
}

/// The base-level alignment of a mapping, present when CIGAR output was asked for.
#[derive(Debug, Clone, PartialEq, Eq)]
pub struct Alignment {
    /// The edit distance: block length minus matching bases plus ambiguous bases.
    pub nm: i32,
    pub cigar: Option<Vec<(u32, u8)>>,
    pub cigar_str: Option<String>,
    pub md: Option<String>,
    pub cs: Option<String>,
    pub alignment_score: Option<i32>,
}

/// One mapping of a query onto a target, as the alignment call reports it.
#[derive(Debug, Clone, PartialEq, Eq, Default)]
pub struct Mapping {
    pub query_name: Option<Arc<String>>,
    /// The query's length; absent for an empty query.
    pub query_len: Option<i32>,
    pub query_start: i32,
    pub query_end: i32,
    pub strand: Strand,
    pub target_name: Option<Arc<String>>,
    pub target_len: i32,
    pub target_start: i32,
    pub target_end: i32,
    pub target_id: i32,
    pub match_len: i32,
    pub block_len: i32,
    pub mapq: u32,
    pub is_primary: bool,
    pub is_supplementary: bool,
    pub is_spliced: bool,
    pub trans_strand: Option<Strand>,
    pub alignment: Option<Alignment>,
}

/// Options for building an index, handed unchanged to the index builder. The default has every
/// field zero; it is not the aligner's own default set, which its option initialiser fills in.
#[derive(Debug, Clone, Copy, PartialEq, Eq, Structural)]
pub struct IdxOpt {
    pub k: i16,
    pub w: i16,
    pub flag: i16,
    pub bucket_bits: i16,
    pub mini_batch_size: i64,
    pub batch_size: u64,
}

impl Default for IdxOpt {
    fn default() -> (o: Self)
        ensures
            o == (IdxOpt { k: 0, w: 0, flag: 0, bucket_bits: 0, mini_batch_size: 0, batch_size: 0 }),
    {
        IdxOpt { k: 0, w: 0, flag: 0, bucket_bits: 0, mini_batch_size: 0, batch_size: 0 }
    }
}

/// Options for mapping, handed unchanged to the alignment call. The default has every field
/// zero; it is not the aligner's own default set, which its option initialiser fills in.
#[derive(Debug, Clone, Copy, PartialEq, Eq, Structural)]
pub struct MapOpt {
    pub flag: i64,
    pub seed: i32,
    pub q: i32,
    pub q2: i32,
    pub max_frag_len: i32,
    pub mid_occ: i32,
}

impl Default for MapOpt {
    fn default() -> (o: Self)
        ensures
            o == (MapOpt { flag: 0, seed: 0, q: 0, q2: 0, max_frag_len: 0, mid_occ: 0 }),
    {
        MapOpt { flag: 0, seed: 0, q: 0, q2: 0, max_frag_len: 0, mid_occ: 0 }
    }
}

/// The format of a sequence file.
#[allow(clippy::upper_case_acronyms)]
#[derive(Debug, Clone, Copy, PartialEq, Eq, Structural)]
pub enum FileFormat {
    FASTA,
    FASTQ,
}

/// Builder state: no preset chosen yet.
#[derive(Default, Clone, Copy)]
pub struct Unset;

/// Builder state: a preset has been applied.
#[derive(Default, Clone, Copy)]
pub struct PresetSet;

/// Builder state: the index is built and the aligner can map.
#[derive(Default, Clone, Copy)]
pub struct Built;

/// The states an aligner builder passes through.
pub trait BuilderState {}

impl BuilderState for Unset {}

impl BuilderState for PresetSet {}

impl BuilderState for Built {}

impl BuilderState for () {}

/// The builder states in which options may still be changed.
pub trait AcceptsParams {}

impl AcceptsParams for PresetSet {}

impl AcceptsParams for Unset {}

/// A query sequence with its identifier.
#[derive(Debug, Clone, PartialEq)]
pub struct QuerySequence {
    pub id: String,
    pub sequence: Vec<u8>,
}

impl QuerySequence {
    pub fn new(id: String, sequence: Vec<u8>) -> (q: Self)
        ensures
            q.id == id,
            q.sequence == sequence,
    {
        QuerySequence { id, sequence }
    }
}

/// The name, length and alt flag of one target sequence of an index.
#[derive(Debug, PartialEq, Eq)]
pub struct SeqMetaData {
    pub name: String,
    pub length: u32,
    pub is_alt: bool,
}

/// What an index records about its target sequences.
#[derive(Debug)]
pub struct MMIndex {
    pub seqs: Vec<SeqMetaData>,
}

impl MMIndex {
    /// The number of target sequences in the index.
    pub fn n_seq(&self) -> (r: u32)
        requires
            self.seqs@.len() <= u32::MAX,
        ensures
            r == self.seqs@.len(),
    {
        self.seqs.len() as u32
    }
}

/// Scratch memory owned by one worker and handed explicitly to each alignment call it makes.
#[derive(Debug)]
pub struct ThreadLocalBuffer {
    buf: Vec<u8>,
}

impl ThreadLocalBuffer {
    pub closed spec fn contents(&self) -> Seq<u8> {
        self.buf@
    }

    pub fn new() -> (b: Self)
        ensures
            b.contents() == Seq::<u8>::empty(),
    {
        ThreadLocalBuffer { buf: Vec::new() }
    }

    /// The scratch memory itself; what the caller leaves in it stays for the next call.
    pub fn get_buf(&mut self) -> (r: &mut Vec<u8>)
        ensures
            r@ == old(self).contents(),
            final(self).contents() == final(r)@,
    {
        &mut self.buf
    }
}

impl Default for ThreadLocalBuffer {
    fn default() -> (b: Self)
        ensures
            b.contents() == Seq::<u8>::empty(),
    {
        ThreadLocalBuffer::new()
    }
}

} // verus!
