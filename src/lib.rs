//! Statistics over somatic variant calls: the effective mutation rate from the
//! allele frequency spectrum, a local FDR for posterior event probabilities, and
//! FDR control against a null call set.
pub mod estimate;
pub mod local_fdr;
pub mod null_fdr;
pub mod records;
pub mod spectrum;
