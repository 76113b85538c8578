//! Candidates of a search, and where they come from.

use crate::mutation::MutationKind;
use crate::reduction::ReductionOperation;
use crate::trace::{Trace, TraceModel};
use vstd::prelude::*;

verus! {

/// Length and hash of a byte path.
#[derive(Debug, Clone, Copy, PartialEq, Eq, Structural)]
pub struct PrefixFingerprint {
    pub len: usize,
    pub hash: u64,
}

/// Number of hashes.
pub const HASHES: u128 = 0x1_0000_0000_0000_0000;

impl PrefixFingerprint {
    /// One number for the length and the hash.
    pub open spec fn key_spec(self) -> u128 {
        (self.len * HASHES + self.hash) as u128
    }

    /// One number for the length and the hash.
    pub fn key(self) -> (key: u128)
        ensures
            key == self.key_spec(),
    {
        self.len as u128 * 0x1_0000_0000_0000_0000u128 + self.hash as u128
    }
}

/// Fingerprints have one key only where they are equal.
pub proof fn fingerprint_keys_are_unique(a: PrefixFingerprint, b: PrefixFingerprint)
    ensures
        a.key_spec() == b.key_spec() ==> a == b,
{
    assert(a.len * HASHES + a.hash <= u128::MAX);
    assert(b.len * HASHES + b.hash <= u128::MAX);
    if a.key_spec() == b.key_spec() {
        assert(a.len * 0x1_0000_0000_0000_0000 + a.hash == b.len * 0x1_0000_0000_0000_0000
            + b.hash);
        assert(a.len == b.len);
    }
}

/// FNV-1a hash of the bytes.
pub open spec fn fnv(bytes: Seq<u8>) -> u64
    decreases bytes.len(),
{
    if bytes.len() == 0 {
        0xcbf2_9ce4_8422_2325
    } else {
        (fnv(bytes.drop_last()) ^ (bytes.last() as u64)).wrapping_mul(0x0000_0100_0000_01b3)
    }
}

/// Length and hash of a byte path.
pub open spec fn fingerprint_of(prefix: Seq<u8>) -> PrefixFingerprint {
    PrefixFingerprint { len: prefix.len() as usize, hash: fnv(prefix) }
}

/// Length and hash of a byte path.
pub fn prefix_fingerprint(prefix: &Vec<u8>) -> (fingerprint: PrefixFingerprint)
    ensures
        fingerprint == fingerprint_of(prefix@),
{
    let mut hash: u64 = 0xcbf2_9ce4_8422_2325;
    let mut i: usize = 0;
    assert(prefix@.take(0) =~= Seq::<u8>::empty());
    while i < prefix.len()
        invariant
            i <= prefix@.len(),
            hash == fnv(prefix@.take(i as int)),
        decreases prefix@.len() - i,
    {
        assert(prefix@.take(i + 1).drop_last() =~= prefix@.take(i as int));
        hash = (hash ^ prefix[i] as u64).wrapping_mul(0x0000_0100_0000_01b3);
        i += 1;
    }
    assert(prefix@.take(prefix@.len() as int) =~= prefix@);
    PrefixFingerprint { len: prefix.len(), hash }
}

/// Which reduction a candidate comes from.
#[derive(Debug, Clone, Copy, PartialEq, Eq, Structural)]
pub struct ReductionId {
    pub epoch: u64,
    pub operation: ReductionOperation,
    pub kind: MutationKind,
    pub cursor: usize,
    pub start: usize,
    pub len: usize,
    pub target: u64,
    pub fingerprint: PrefixFingerprint,
}

/// Where a candidate comes from.
#[derive(Debug, PartialEq, Eq)]
pub enum CandidateOrigin {
    /// A case handed in, or a fresh one.
    SeededCase,
    /// Rewrites that look for coverage.
    CuriousMutation(Vec<MutationKind>),
    /// A reduction of the best case.
    CautiousReduction(ReductionId),
    /// Rewrites that make a case smaller.
    CautiousHavoc(Vec<MutationKind>),
    /// A source of the caller's own.
    CustomMutation { source: usize, mutations: Vec<MutationKind> },
}

/// Where a candidate comes from, by contents.
#[verifier::ext_equal]
pub enum OriginModel {
    SeededCase,
    CuriousMutation(Seq<MutationKind>),
    CautiousReduction(ReductionId),
    CautiousHavoc(Seq<MutationKind>),
    CustomMutation { source: usize, mutations: Seq<MutationKind> },
}

impl View for CandidateOrigin {
    type V = OriginModel;

    open spec fn view(&self) -> OriginModel {
        match *self {
            CandidateOrigin::SeededCase => OriginModel::SeededCase,
            CandidateOrigin::CuriousMutation(kinds) => OriginModel::CuriousMutation(kinds@),
            CandidateOrigin::CautiousReduction(id) => OriginModel::CautiousReduction(id),
            CandidateOrigin::CautiousHavoc(kinds) => OriginModel::CautiousHavoc(kinds@),
            CandidateOrigin::CustomMutation { source, mutations } => OriginModel::CustomMutation {
                source,
                mutations: mutations@,
            },
        }
    }
}

impl OriginModel {
    /// The kinds of the rewrites behind the candidate.
    pub open spec fn kinds(self) -> Seq<MutationKind> {
        match self {
            OriginModel::SeededCase => Seq::empty(),
            OriginModel::CuriousMutation(kinds) => kinds,
            OriginModel::CautiousReduction(id) => seq![id.kind],
            OriginModel::CautiousHavoc(kinds) => kinds,
            OriginModel::CustomMutation { mutations, .. } => mutations,
        }
    }

    /// The caller's source behind the candidate.
    pub open spec fn source(self) -> Option<usize> {
        match self {
            OriginModel::CustomMutation { source, .. } => Some(source),
            _ => None,
        }
    }
}

/// Copy a list of kinds.
pub fn copy_kinds(kinds: &Vec<MutationKind>) -> (copy: Vec<MutationKind>)
    ensures
        copy@ == kinds@,
{
    let mut copy: Vec<MutationKind> = Vec::with_capacity(kinds.len());
    let mut i: usize = 0;
    while i < kinds.len()
        invariant
            i <= kinds@.len(),
            copy@ == kinds@.take(i as int),
        decreases kinds@.len() - i,
    {
        copy.push(kinds[i]);
        i += 1;
    }
    assert(copy@ =~= kinds@);
    copy
}

impl Clone for CandidateOrigin {
    fn clone(&self) -> (copy: CandidateOrigin)
        ensures
            copy@ == self@,
    {
        match self {
            CandidateOrigin::SeededCase => CandidateOrigin::SeededCase,
            CandidateOrigin::CuriousMutation(kinds) => CandidateOrigin::CuriousMutation(
                copy_kinds(kinds),
            ),
            CandidateOrigin::CautiousReduction(id) => CandidateOrigin::CautiousReduction(*id),
            CandidateOrigin::CautiousHavoc(kinds) => CandidateOrigin::CautiousHavoc(
                copy_kinds(kinds),
            ),
            CandidateOrigin::CustomMutation { source, mutations } => {
                CandidateOrigin::CustomMutation {
                    source: *source,
                    mutations: copy_kinds(mutations),
                }
            },
        }
    }
}

impl CandidateOrigin {
    /// The kinds of the rewrites behind the candidate.
    pub fn mutation_kinds(&self) -> (kinds: Vec<MutationKind>)
        ensures
            kinds@ == self@.kinds(),
    {
        match self {
            CandidateOrigin::SeededCase => {
                let kinds: Vec<MutationKind> = Vec::new();
                assert(kinds@ =~= Seq::<MutationKind>::empty());
                kinds
            },
            CandidateOrigin::CuriousMutation(kinds) => copy_kinds(kinds),
            CandidateOrigin::CautiousReduction(id) => {
                let mut kinds: Vec<MutationKind> = Vec::with_capacity(1);
                kinds.push(id.kind);
                assert(kinds@ =~= seq![id.kind]);
                kinds
            },
            CandidateOrigin::CautiousHavoc(kinds) => copy_kinds(kinds),
            CandidateOrigin::CustomMutation { mutations, .. } => copy_kinds(mutations),
        }
    }

    /// The caller's source behind the candidate.
    pub fn custom_source(&self) -> (source: Option<usize>)
        ensures
            source == self@.source(),
    {
        match self {
            CandidateOrigin::CustomMutation { source, .. } => Some(*source),
            _ => None,
        }
    }
}

/// A case to run next.
#[derive(Debug, PartialEq, Eq)]
pub struct Candidate {
    pub case: Trace,
    pub mutated: bool,
    pub origin: CandidateOrigin,
}

/// A case to run next, by contents.
#[verifier::ext_equal]
pub struct CandidateModel {
    pub case: TraceModel,
    pub mutated: bool,
    pub origin: OriginModel,
}

impl View for Candidate {
    type V = CandidateModel;

    open spec fn view(&self) -> CandidateModel {
        CandidateModel { case: self.case@, mutated: self.mutated, origin: self.origin@ }
    }
}

} // verus!
