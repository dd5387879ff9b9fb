//! Scoring splice junctions from the two bases at each end of an intron.
//!
//! Bases are in 2-bit form: 0 = A, 1 = C, 2 = G, 3 = T, 4 and above = N.
use vstd::prelude::*;

verus! {

pub open spec fn complement(b: u8) -> u8 {
    if b < 4 {
        (3 - b) as u8
    } else {
        4
    }
}

/// Reverse-complements the two bases of a splice site in place.
pub fn revcomp_splice(s: &mut [u8; 2])
    ensures
        final(s)@ == seq![complement(old(s)@[1]), complement(old(s)@[0])],
{
    let first = s[0];
    let second = s[1];
    let c0 = if second < 4 {
        3 - second
    } else {
        4
    };
    let c1 = if first < 4 {
        3 - first
    } else {
        4
    };
    *s = [c0, c1];
    proof {
        assert(s@ =~= seq![c0, c1]);
    }
}

/// GT scores 3, GC 2, AT 1 at the donor (5') end of an intron.
pub open spec fn donor_score(site: Seq<u8>) -> u32 {
    if site[0] == 2 && site[1] == 3 {
        3
    } else if site[0] == 2 && site[1] == 1 {
        2
    } else if site[0] == 0 && site[1] == 3 {
        1
    } else {
        0
    }
}

/// AG scores 3, AC 1 at the acceptor (3') end of an intron.
pub open spec fn acceptor_score(site: Seq<u8>) -> u32 {
    if site[0] == 0 && site[1] == 2 {
        3
    } else if site[0] == 0 && site[1] == 1 {
        1
    } else {
        0
    }
}

/// The score of a junction from the bases read at the intron's start and end on the forward
/// strand. On a reverse-strand transcript the acceptor lies at the start and the donor at the
/// end, each read reverse-complemented.
pub fn junction_score(start_site: [u8; 2], end_site: [u8; 2], reverse: bool) -> (r: u32)
    ensures
        !reverse ==> r == donor_score(start_site@) + acceptor_score(end_site@),
        reverse ==> r == donor_score(seq![complement(end_site@[1]), complement(end_site@[0])])
            + acceptor_score(seq![complement(start_site@[1]), complement(start_site@[0])]),
{
    let mut donor = if reverse {
        end_site
    } else {
        start_site
    };
    let mut acceptor = if reverse {
        start_site
    } else {
        end_site
    };
    if reverse {
        revcomp_splice(&mut donor);
        revcomp_splice(&mut acceptor);
    }
    let d: u32 = if donor[0] == 2 && donor[1] == 3 {
        3
    } else if donor[0] == 2 && donor[1] == 1 {
        2
    } else if donor[0] == 0 && donor[1] == 3 {
        1
    } else {
        0
    };
    let a: u32 = if acceptor[0] == 0 && acceptor[1] == 2 {
        3
    } else if acceptor[0] == 0 && acceptor[1] == 1 {
        1
    } else {
        0
    };
    d + a
}

} // verus!
