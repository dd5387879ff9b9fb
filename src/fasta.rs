//! Counting the records of FASTA text.
use vstd::prelude::*;

verus! {

/// Byte `i` opens a header line: a `>` at the start of a line.
pub open spec fn opens_header(data: Seq<u8>, i: int) -> bool {
    &&& 0 <= i < data.len()
    &&& data[i] == 62u8
    &&& (i == 0 || data[i - 1] == 10u8)
}

/// The number of header lines in `data`, that is of lines that start with `>`.
pub open spec fn fasta_entries(data: Seq<u8>) -> nat
    decreases data.len(),
{
    if data.len() == 0 {
        0
    } else {
        fasta_entries(data.drop_last()) + (if opens_header(data, data.len() - 1) {
            1nat
        } else {
            0nat
        })
    }
}

proof fn lemma_fasta_entries_prefix(data: Seq<u8>, i: int)
    requires
        0 <= i < data.len(),
    ensures
        fasta_entries(data.take(i + 1)) == fasta_entries(data.take(i)) + (if opens_header(data, i) {
            1nat
        } else {
            0nat
        }),
{
    let p = data.take(i + 1);
    assert(p.drop_last() =~= data.take(i));
    assert(opens_header(p, i) == opens_header(data, i));
}

/// The number of records in FASTA text: lines that start with `>`.
pub fn count_fasta_entries(data: &[u8]) -> (r: usize)
    ensures
        r == fasta_entries(data@),
{
    let mut entries: usize = 0;
    let mut i: usize = 0;
    while i < data.len()
        invariant
            i <= data@.len(),
            entries == fasta_entries(data@.take(i as int)),
            entries <= i,
        decreases data@.len() - i,
    {
        proof {
            lemma_fasta_entries_prefix(data@, i as int);
        }
        if data[i] == 62u8 && (i == 0 || data[i - 1] == 10u8) {
            entries = entries + 1;
        }
        i = i + 1;
    }
    proof {
        assert(data@.take(i as int) =~= data@);
    }
    entries
}

} // verus!
