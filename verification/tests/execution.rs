use dowsing::coverage::{CoverageId, CoverageSet, ExecutionFeedback};
use dowsing::execution::{
    DecodeError, DetachedExecution, DrawKind, DrawRecord, ItemRecord, SemanticKind, SemanticSpan,
    SequenceRecord,
};
use dowsing::score::CaseCost;

fn sample() -> DetachedExecution {
    let mut features = CoverageSet::new();
    features.insert(CoverageId::new(u64::MAX));
    features.insert(CoverageId::new(5));
    DetachedExecution {
        trace: vec![1, 2, 3, 4, 5],
        draws: vec![
            DrawRecord { start: 0, len: 4, kind: DrawKind::Word },
            DrawRecord { start: 4, len: 1, kind: DrawKind::Bytes },
        ],
        semantics: vec![
            SemanticSpan { start: 0, len: 4, kind: SemanticKind::Length },
            SemanticSpan { start: 4, len: 1, kind: SemanticKind::Item },
            SemanticSpan { start: 4, len: 1, kind: SemanticKind::Variant },
        ],
        sequences: vec![SequenceRecord {
            length_start: 0,
            length_len: 4,
            items: vec![ItemRecord { start: 4, len: 1 }],
        }],
        bytes_consumed: 5,
        feedback: Some(
            ExecutionFeedback::from_features(features)
                .with_hit_count_weight(11)
                .with_dictionary(vec![vec![], vec![0x13, 0x37]]),
        ),
        case_cost: CaseCost::new(9),
    }
}

fn bare() -> DetachedExecution {
    DetachedExecution {
        trace: vec![],
        draws: vec![],
        semantics: vec![],
        sequences: vec![],
        bytes_consumed: 0,
        feedback: None,
        case_cost: CaseCost::zero(),
    }
}

fn words(values: &[u64]) -> Vec<u8> {
    values.iter().flat_map(|value| value.to_le_bytes()).collect()
}

#[test]
fn executions_come_back_as_they_were_sent() {
    for execution in [sample(), bare()] {
        let bytes = execution.encode();
        let back = DetachedExecution::decode(&bytes).expect("decode");
        assert_eq!(back, execution);
    }
    let execution = sample();
    assert_eq!(execution.trace(), &vec![1, 2, 3, 4, 5]);
    assert_eq!(execution.bytes_consumed(), 5);
    assert_eq!(execution.case_cost().raw(), 9);
    assert_eq!(execution.feedback().expect("feedback").hit_count_weight(), 11);
    assert!(bare().feedback().is_none());
}

#[test]
fn a_bare_execution_has_a_fixed_form() {
    let bytes = bare().encode();
    let mut expected = words(&[0, 0, 0, 0, 0]);
    expected.extend(words(&[0]));
    expected.push(0);
    assert_eq!(bytes, expected);
}

#[test]
fn a_part_of_an_execution_is_truncated() {
    let bytes = sample().encode();
    for len in 0..bytes.len() {
        let error = DetachedExecution::decode(&bytes[..len].to_vec()).expect_err("truncated");
        assert_eq!(error, DecodeError::Truncated.message(), "{len} bytes");
    }
    assert_eq!(DecodeError::Truncated.message(), "truncated detached execution");
}

#[test]
fn bytes_behind_an_execution_are_refused() {
    let mut bytes = sample().encode();
    bytes.push(0);
    let error = DetachedExecution::decode(&bytes).expect_err("trailing");
    assert_eq!(error, "trailing bytes in detached execution");
    assert_eq!(error, DecodeError::Trailing.message());
}

#[test]
fn unknown_tags_are_refused() {
    let mut bytes = words(&[0, 1, 0, 0]);
    bytes.push(7);
    assert_eq!(
        DetachedExecution::decode(&bytes).expect_err("draw kind"),
        DecodeError::BadDrawKind(7).message()
    );
    let mut bytes = words(&[0, 0, 1, 0, 0]);
    bytes.push(12);
    assert_eq!(
        DetachedExecution::decode(&bytes).expect_err("semantic kind"),
        "bad semantic kind 12"
    );
    let mut bytes = bare().encode();
    let last = bytes.len() - 1;
    bytes[last] = 200;
    assert_eq!(
        DetachedExecution::decode(&bytes).expect_err("feedback tag"),
        "bad feedback tag 200"
    );
    assert_eq!(DecodeError::BadSemanticKind(12).message(), "bad semantic kind 12");
    assert_eq!(DecodeError::BadFeedbackTag(200).message(), "bad feedback tag 200");
    assert_eq!(DecodeError::Overflow.message(), "value overflows usize");
}
