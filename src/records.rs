//! Variant records, variant types and the filter between them.
use vstd::prelude::*;

verus! {

/// Probabilities are held in parts per billion.
pub const PROB_SCALE: u64 = 1_000_000_000;

/// The most records a call set may hold for the exact counts to fit.
pub const MAX_RECORDS: u64 = 1_000_000_000_000;

/// A genomic position: contig id and 0-based position.
#[derive(Clone, Copy, Debug, PartialEq, Eq, Structural)]
pub struct Locus {
    pub rid: u32,
    pub pos: u64,
}

/// What a record is: a substitution, or an indel of the given net length.
#[derive(Clone, Copy, Debug, PartialEq, Eq, Structural)]
pub enum RecordKind {
    Snv,
    Insertion(u32),
    Deletion(u32),
    Other,
}

/// A half-open length range `[min_len, max_len)`.
#[derive(Clone, Copy, Debug, PartialEq, Eq, Structural)]
pub struct LenRange {
    pub min_len: u32,
    pub max_len: u32,
}

/// The variant type that a statistic is restricted to.
#[derive(Clone, Copy, Debug, PartialEq, Eq, Structural)]
pub enum VariantType {
    Snv,
    Insertion(Option<LenRange>),
    Deletion(Option<LenRange>),
}

#[derive(Clone, Copy, Debug, PartialEq, Eq, Structural)]
pub enum ConfigError {
    /// The variant type is none of SNV, INS and DEL.
    UnsupportedVariantType,
    /// A length range whose minimum is not below its maximum.
    EmptyLengthRange,
    /// Only one of the two length bounds is given: they go together.
    MissingLengthBound,
}

/// One call: its locus, its kind and, per event column, the probability of
/// the event in parts per billion (`None` where the record lacks it).
#[derive(Debug)]
pub struct VariantRecord {
    pub locus: Locus,
    pub kind: RecordKind,
    pub probs: Vec<Option<u64>>,
}

pub open spec fn in_range(len: u32, range: Option<LenRange>) -> bool {
    match range {
        None => true,
        Some(r) => r.min_len <= len && len < r.max_len,
    }
}

pub open spec fn kind_matches(kind: RecordKind, vt: VariantType) -> bool {
    match (kind, vt) {
        (RecordKind::Snv, VariantType::Snv) => true,
        (RecordKind::Insertion(l), VariantType::Insertion(r)) => in_range(l, r),
        (RecordKind::Deletion(l), VariantType::Deletion(r)) => in_range(l, r),
        _ => false,
    }
}

/// Whether a record of kind `kind` counts under variant type `vt`.
pub fn matches_type(kind: RecordKind, vt: VariantType) -> (r: bool)
    ensures
        r == kind_matches(kind, vt),
{
    match (kind, vt) {
        (RecordKind::Snv, VariantType::Snv) => true,
        (RecordKind::Insertion(l), VariantType::Insertion(r)) => match r {
            None => true,
            Some(r) => r.min_len <= l && l < r.max_len,
        },
        (RecordKind::Deletion(l), VariantType::Deletion(r)) => match r {
            None => true,
            Some(r) => r.min_len <= l && l < r.max_len,
        },
        _ => false,
    }
}

pub open spec fn spec_record_kind(ref_len: u32, alt_len: u32) -> RecordKind {
    if ref_len == 1 && alt_len == 1 {
        RecordKind::Snv
    } else if ref_len == 1 && alt_len > 1 {
        RecordKind::Insertion((alt_len - 1) as u32)
    } else if alt_len == 1 && ref_len > 1 {
        RecordKind::Deletion((ref_len - 1) as u32)
    } else {
        RecordKind::Other
    }
}

/// The kind of a call from the lengths of its reference and alternative
/// alleles: one base each is a substitution; one reference base against a
/// longer alternative an insertion, the reverse a deletion, of the net length.
pub fn record_kind(ref_len: u32, alt_len: u32) -> (r: RecordKind)
    ensures
        r == spec_record_kind(ref_len, alt_len),
{
    if ref_len == 1 && alt_len == 1 {
        RecordKind::Snv
    } else if ref_len == 1 && alt_len > 1 {
        RecordKind::Insertion(alt_len - 1)
    } else if alt_len == 1 && ref_len > 1 {
        RecordKind::Deletion(ref_len - 1)
    } else {
        RecordKind::Other
    }
}

pub open spec fn tag_snv() -> Seq<u8> {
    seq![83u8, 78u8, 86u8]
}

pub open spec fn tag_ins() -> Seq<u8> {
    seq![73u8, 78u8, 83u8]
}

pub open spec fn tag_del() -> Seq<u8> {
    seq![68u8, 69u8, 76u8]
}

pub open spec fn spec_length_range(min_len: Option<u32>, max_len: Option<u32>) -> Result<
    Option<LenRange>,
    ConfigError,
> {
    match (min_len, max_len) {
        (Some(lo), Some(hi)) => if lo < hi {
            Ok(Some(LenRange { min_len: lo, max_len: hi }))
        } else {
            Err(ConfigError::EmptyLengthRange)
        },
        (None, None) => Ok(None),
        _ => Err(ConfigError::MissingLengthBound),
    }
}

fn length_range(min_len: Option<u32>, max_len: Option<u32>) -> (r: Result<Option<LenRange>, ConfigError>)
    ensures
        r == spec_length_range(min_len, max_len),
{
    match (min_len, max_len) {
        (Some(lo), Some(hi)) => if lo < hi {
            Ok(Some(LenRange { min_len: lo, max_len: hi }))
        } else {
            Err(ConfigError::EmptyLengthRange)
        },
        (None, None) => Ok(None),
        _ => Err(ConfigError::MissingLengthBound),
    }
}

pub open spec fn spec_parse_vartype(tag: Seq<u8>, min_len: Option<u32>, max_len: Option<u32>) -> Result<
    VariantType,
    ConfigError,
> {
    if tag == tag_snv() {
        Ok(VariantType::Snv)
    } else if tag == tag_ins() || tag == tag_del() {
        match spec_length_range(min_len, max_len) {
            Ok(r) => if tag == tag_ins() {
                Ok(VariantType::Insertion(r))
            } else {
                Ok(VariantType::Deletion(r))
            },
            Err(e) => Err(e),
        }
    } else {
        Err(ConfigError::UnsupportedVariantType)
    }
}

fn is_tag(tag: &[u8], c0: u8, c1: u8, c2: u8) -> (r: bool)
    ensures
        r == (tag@ == seq![c0, c1, c2]),
{
    let r = tag.len() == 3 && tag[0] == c0 && tag[1] == c1 && tag[2] == c2;
    proof {
        if r {
            assert(tag@ =~= seq![c0, c1, c2]);
        }
    }
    r
}

/// The variant type named by `tag` (`SNV`, `INS` or `DEL`). An indel type is
/// restricted to `[min_len, max_len)` when both bounds are given, which then
/// must form a non-empty range, and unrestricted when neither is; one bound
/// alone is an error. An SNV ignores them.
pub fn parse_vartype(tag: &[u8], min_len: Option<u32>, max_len: Option<u32>) -> (r: Result<
    VariantType,
    ConfigError,
>)
    ensures
        r == spec_parse_vartype(tag@, min_len, max_len),
{
    if is_tag(tag, 83, 78, 86) {
        Ok(VariantType::Snv)
    } else if is_tag(tag, 73, 78, 83) {
        match length_range(min_len, max_len) {
            Ok(r) => Ok(VariantType::Insertion(r)),
            Err(e) => Err(e),
        }
    } else if is_tag(tag, 68, 69, 76) {
        match length_range(min_len, max_len) {
            Ok(r) => Ok(VariantType::Deletion(r)),
            Err(e) => Err(e),
        }
    } else {
        Err(ConfigError::UnsupportedVariantType)
    }
}

impl VariantRecord {
    /// Probabilities within `[0, 1]`.
    pub open spec fn wf(&self) -> bool {
        forall|e: int|
            0 <= e < self.probs@.len() && (#[trigger] self.probs@[e]) is Some ==> self.probs@[e].unwrap()
                <= PROB_SCALE
    }

    pub open spec fn spec_prob(&self, event: int) -> Option<u64> {
        if 0 <= event < self.probs@.len() {
            self.probs@[event]
        } else {
            None
        }
    }

    /// The probability of event column `event`, if the record holds one.
    pub fn prob(&self, event: usize) -> (r: Option<u64>)
        ensures
            r == self.spec_prob(event as int),
    {
        if event < self.probs.len() {
            self.probs[event]
        } else {
            None
        }
    }
}

/// The probabilities of event column `event` over `recs`.
pub open spec fn event_column(recs: Seq<VariantRecord>, event: int) -> Seq<Option<u64>> {
    Seq::new(recs.len(), |i: int| recs[i].spec_prob(event))
}

/// The same, restricted to the records of variant type `vt` (in their order).
pub open spec fn typed_column(recs: Seq<VariantRecord>, event: int, vt: VariantType) -> Seq<Option<u64>>
    decreases recs.len(),
{
    if recs.len() == 0 {
        Seq::empty()
    } else {
        let r = typed_column(recs.drop_last(), event, vt);
        if kind_matches(recs.last().kind, vt) {
            r.push(recs.last().spec_prob(event))
        } else {
            r
        }
    }
}

/// Reads event column `event` from every record.
pub fn event_probs(recs: &Vec<VariantRecord>, event: usize) -> (r: Vec<Option<u64>>)
    ensures
        r@ == event_column(recs@, event as int),
{
    let mut r: Vec<Option<u64>> = Vec::new();
    let mut i: usize = 0;
    while i < recs.len()
        invariant
            i <= recs.len(),
            r@ =~= event_column(recs@, event as int).take(i as int),
        decreases recs.len() - i,
    {
        r.push(recs[i].prob(event));
        i += 1;
    }
    r
}

/// Reads event column `event` from the records of variant type `vt`.
pub fn typed_column_of(recs: &Vec<VariantRecord>, event: usize, vt: VariantType) -> (r: Vec<Option<u64>>)
    ensures
        r@ == typed_column(recs@, event as int, vt),
{
    let mut r: Vec<Option<u64>> = Vec::new();
    let mut i: usize = 0;
    while i < recs.len()
        invariant
            i <= recs.len(),
            r@ == typed_column(recs@.take(i as int), event as int, vt),
        decreases recs.len() - i,
    {
        proof {
            assert(recs@.take(i as int + 1).drop_last() =~= recs@.take(i as int));
        }
        if matches_type(recs[i].kind, vt) {
            r.push(recs[i].prob(event));
        }
        i += 1;
    }
    proof {
        assert(recs@.take(recs@.len() as int) =~= recs@);
    }
    r
}

} // verus!
