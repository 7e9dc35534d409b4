use prosic_stats::estimate::{fdr, fdr_bh, FdrBhError};
use prosic_stats::local_fdr::{annotate, local_fdr, AnnotateError};
use prosic_stats::null_fdr::{control_fdr, select_threshold, NullFdrError, Selection};
use prosic_stats::records::{
    event_probs, matches_type, parse_vartype, record_kind, ConfigError, LenRange, Locus, RecordKind, VariantRecord,
    VariantType,
};

const P: u64 = 1_000_000_000;

fn rec(pos: u64, kind: RecordKind, probs: Vec<Option<u64>>) -> VariantRecord {
    VariantRecord { locus: Locus { rid: 0, pos }, kind, probs }
}

fn snvs(probs: &[u64]) -> Vec<VariantRecord> {
    probs
        .iter()
        .enumerate()
        .map(|(i, &p)| rec(i as u64, RecordKind::Snv, vec![Some(p)]))
        .collect()
}

#[test]
fn local_fdr_exact_values() {
    let ps = vec![Some(900_000_000), Some(500_000_000), None, Some(900_000_000), Some(990_000_000)];
    let r = local_fdr(&ps);
    assert_eq!(
        r,
        vec![Some(55_000_000), Some(177_500_000), None, Some(70_000_000), Some(10_000_000)]
    );
}

#[test]
fn local_fdr_monotone_in_probability() {
    let ps: Vec<Option<u64>> = vec![3, 97, 45, 45, 80, 12, 100, 0, 66]
        .into_iter()
        .map(|p| Some(p * 10_000_000))
        .collect();
    let r = local_fdr(&ps);
    for i in 0..ps.len() {
        for k in 0..ps.len() {
            if ps[i].unwrap() > ps[k].unwrap() {
                assert!(r[i].unwrap() <= r[k].unwrap());
            }
        }
    }
}

#[test]
fn annotate_keeps_records_and_adds_one_column_per_event() {
    let recs = vec![
        rec(10, RecordKind::Snv, vec![Some(800_000_000), Some(100_000_000)]),
        rec(20, RecordKind::Deletion(3), vec![None, Some(600_000_000)]),
        rec(30, RecordKind::Insertion(2), vec![Some(400_000_000)]),
    ];
    let before: Vec<(Locus, RecordKind, Vec<Option<u64>>)> =
        recs.iter().map(|r| (r.locus, r.kind, r.probs.clone())).collect();
    let cols = annotate(&recs, &vec![0, 1]).unwrap();
    assert_eq!(cols.len(), 2);
    assert_eq!(cols[0], vec![Some(200_000_000), None, Some(400_000_000)]);
    assert_eq!(cols[1], vec![Some(650_000_000), Some(400_000_000), None]);
    let out = fdr(recs, &vec![0, 1]).unwrap();
    let after: Vec<(Locus, RecordKind, Vec<Option<u64>>)> =
        out.iter().map(|a| (a.record.locus, a.record.kind, a.record.probs.clone())).collect();
    assert_eq!(before, after);
    let fdrs: Vec<Vec<Option<u64>>> = out.iter().map(|a| a.fdr.clone()).collect();
    assert_eq!(
        fdrs,
        vec![
            vec![Some(200_000_000), Some(650_000_000)],
            vec![None, Some(400_000_000)],
            vec![Some(400_000_000), None],
        ]
    );
}

#[test]
fn annotate_missing_event() {
    let recs = snvs(&[500_000_000]);
    assert_eq!(annotate(&recs, &vec![0, 3]).unwrap_err(), AnnotateError::MissingEvent(1));
    assert_eq!(annotate(&Vec::new(), &vec![0]).unwrap_err(), AnnotateError::MissingEvent(0));
    assert_eq!(fdr(recs, &vec![2]).unwrap_err(), AnnotateError::MissingEvent(0));
}

#[test]
fn column_reads_absent_as_none() {
    let recs = vec![rec(1, RecordKind::Snv, vec![Some(1)]), rec(2, RecordKind::Snv, vec![])];
    assert_eq!(event_probs(&recs, 0), vec![Some(1), None]);
}

#[test]
fn threshold_at_several_bounds() {
    let obs = vec![900_000_000, 800_000_000, 700_000_000, 600_000_000];
    let null = vec![750_000_000, 650_000_000];
    let s = select_threshold(&obs, &null, 500_000_000).unwrap();
    assert_eq!(s, Selection { threshold: Some(800_000_000), fdr_num: 0, fdr_den: 4 });
    let s = select_threshold(&obs, &null, 700_000_000).unwrap();
    assert_eq!(s, Selection { threshold: Some(700_000_000), fdr_num: 4, fdr_den: 6 });
    let s = select_threshold(&obs, &null, P).unwrap();
    assert_eq!(s, Selection { threshold: Some(600_000_000), fdr_num: 8, fdr_den: 8 });
}

#[test]
fn threshold_estimate_is_clamped_upward() {
    // the estimate at 0.7 (1/2) is below the one at 0.8 (3/4): 0.7 is not taken
    let obs = vec![900_000_000, 800_000_000, 700_000_000];
    let null = vec![850_000_000, 100_000_000];
    let s = select_threshold(&obs, &null, 600_000_000).unwrap();
    assert_eq!(s, Selection { threshold: Some(900_000_000), fdr_num: 0, fdr_den: 2 });
}

#[test]
fn identical_null_gives_fdr_one() {
    let obs = vec![900_000_000, 500_000_000, 500_000_000];
    let s = select_threshold(&obs, &obs, 50_000_000).unwrap();
    assert_eq!(s, Selection { threshold: None, fdr_num: 0, fdr_den: 0 });
    let s = select_threshold(&obs, &obs, P).unwrap();
    assert_eq!(s, Selection { threshold: Some(500_000_000), fdr_num: 9, fdr_den: 9 });
}

#[test]
fn empty_null_after_filtering_fails() {
    let observed = snvs(&[900_000_000]);
    let null = vec![rec(5, RecordKind::Deletion(4), vec![Some(900_000_000)])];
    assert_eq!(
        control_fdr(&observed, &null, 0, VariantType::Snv, P).unwrap_err(),
        NullFdrError::EmptyNullSet
    );
    assert_eq!(
        fdr_bh(&observed, &null, 0, b"SNV", None, None, P).unwrap_err(),
        FdrBhError::EmptyNullSet
    );
    assert_eq!(
        select_threshold(&vec![1], &vec![], P).unwrap_err(),
        NullFdrError::EmptyNullSet
    );
}

#[test]
fn control_fdr_marks_passing_records() {
    let observed = vec![
        rec(1, RecordKind::Snv, vec![Some(900_000_000)]),
        rec(2, RecordKind::Deletion(2), vec![Some(950_000_000)]),
        rec(3, RecordKind::Snv, vec![Some(800_000_000)]),
        rec(4, RecordKind::Snv, vec![None]),
        rec(5, RecordKind::Snv, vec![Some(700_000_000)]),
        rec(6, RecordKind::Snv, vec![Some(600_000_000)]),
    ];
    let null = snvs(&[750_000_000, 650_000_000]);
    let c = control_fdr(&observed, &null, 0, VariantType::Snv, 500_000_000).unwrap();
    assert_eq!(c.selection.threshold, Some(800_000_000));
    assert_eq!(c.pass, vec![true, false, true, false, false, false]);
}

#[test]
fn fdr_bh_rejects_bad_variant_types() {
    let recs = snvs(&[900_000_000]);
    assert_eq!(
        fdr_bh(&recs, &recs, 0, b"MNV", None, None, P).unwrap_err(),
        FdrBhError::Config(ConfigError::UnsupportedVariantType)
    );
    assert_eq!(
        fdr_bh(&recs, &recs, 0, b"INS", Some(5), Some(5), P).unwrap_err(),
        FdrBhError::Config(ConfigError::EmptyLengthRange)
    );
    let ins = vec![rec(1, RecordKind::Insertion(2), vec![Some(900_000_000)])];
    assert_eq!(
        fdr_bh(&ins, &ins, 0, b"INS", Some(1), None, P).unwrap_err(),
        FdrBhError::Config(ConfigError::MissingLengthBound)
    );
}

#[test]
fn parse_and_match_variant_types() {
    assert_eq!(parse_vartype(b"SNV", Some(9), Some(1)), Ok(VariantType::Snv));
    assert_eq!(parse_vartype(b"INS", None, None), Ok(VariantType::Insertion(None)));
    assert_eq!(parse_vartype(b"INS", None, Some(3)), Err(ConfigError::MissingLengthBound));
    assert_eq!(parse_vartype(b"DEL", Some(2), None), Err(ConfigError::MissingLengthBound));
    let del = parse_vartype(b"DEL", Some(1), Some(10)).unwrap();
    assert_eq!(del, VariantType::Deletion(Some(LenRange { min_len: 1, max_len: 10 })));
    assert!(matches_type(RecordKind::Deletion(1), del));
    assert!(!matches_type(RecordKind::Deletion(10), del));
    assert!(!matches_type(RecordKind::Insertion(5), del));
    assert!(matches_type(RecordKind::Insertion(500), VariantType::Insertion(None)));
    assert!(!matches_type(RecordKind::Other, VariantType::Snv));
}

#[test]
fn record_kind_from_allele_lengths() {
    assert_eq!(record_kind(1, 1), RecordKind::Snv);
    assert_eq!(record_kind(1, 4), RecordKind::Insertion(3));
    assert_eq!(record_kind(6, 1), RecordKind::Deletion(5));
    assert_eq!(record_kind(2, 3), RecordKind::Other);
}

#[test]
fn permuted_null_gives_fdr_one() {
    let obs = vec![200_000_000, 900_000_000, 500_000_000, 500_000_000];
    let null = vec![500_000_000, 500_000_000, 900_000_000, 200_000_000];
    let s = select_threshold(&obs, &null, 950_000_000).unwrap();
    assert_eq!(s, Selection { threshold: None, fdr_num: 0, fdr_den: 0 });
    let s = select_threshold(&obs, &null, P).unwrap();
    assert_eq!(s.threshold, Some(200_000_000));
    assert_eq!(s.fdr_num, s.fdr_den);
}
