use compiler::conversion::error::TypeConversionError;
use compiler::conversion::operands::{
    check_materialized, check_result_count, check_result_types, ConvertedOperands, MaterializationFault,
};
use compiler::conversion::reconcile::{casts_to_same_types, is_cast_chain, is_dead, reconcile_patterns, CAST_OPERATION};
use compiler::conversion::signature::{check_dropped_argument, check_successor_operands};

#[test]
fn materialized_values_are_checked_in_order() {
    assert!(check_materialized("target", &[1, 2], &[10, 11], &[Some(1), Some(2)]).is_ok());
    match check_materialized("target", &[1, 2], &[10], &[Some(1)]) {
        Err(MaterializationFault::Error(TypeConversionError::MaterializationCountMismatch { kind, expected, actual })) => {
            assert_eq!((kind, expected, actual), ("target", 2, 1));
        }
        other => panic!("unexpected {other:?}"),
    }
    match check_materialized("source", &[1, 2], &[10, 11], &[Some(3), None]) {
        Err(MaterializationFault::Error(TypeConversionError::MaterializationTypeMismatch { kind, value, expected, actual })) => {
            assert_eq!((kind, value, expected, actual), ("source", 10, 1, 3));
        }
        other => panic!("unexpected {other:?}"),
    }
    match check_materialized("source", &[1, 2], &[10, 11], &[Some(1), None]) {
        Err(MaterializationFault::Missing { index }) => assert_eq!(index, 1),
        other => panic!("unexpected {other:?}"),
    }
}

#[test]
fn replacement_results_are_checked() {
    assert!(check_result_count(2, 2).is_ok());
    assert!(matches!(
        check_result_count(2, 1),
        Err(TypeConversionError::ResultCountMismatch { expected: 2, actual: 1 })
    ));
    assert!(check_result_types(0, &[4, 5], &[4, 5]).is_ok());
    match check_result_types(3, &[4, 5], &[4]) {
        Err(TypeConversionError::ResultTypeMismatch { result, expected, actual }) => {
            assert_eq!(result, 3);
            assert_eq!(expected, vec![4, 5]);
            assert_eq!(actual, vec![4]);
        }
        other => panic!("unexpected {other:?}"),
    }
}

#[test]
fn converted_operand_groups_and_singles() {
    let operands = ConvertedOperands::new(vec![vec![7], vec![8, 9], vec![]]);
    assert_eq!(operands.single(0).unwrap(), 7);
    assert!(matches!(operands.single(1), Err(TypeConversionError::ExpectedSingleValue { operand: 1, actual: 2 })));
    assert!(matches!(operands.single(5), Err(TypeConversionError::ExpectedSingleValue { operand: 5, actual: 0 })));
    assert_eq!(operands.flattened(), vec![7, 8, 9]);
    assert_eq!(operands.get(1), Some(&[8u64, 9][..]));
    assert_eq!(operands.get(3), None);
}

#[test]
fn branch_and_argument_checks() {
    assert!(check_successor_operands(2, 2).is_ok());
    assert!(matches!(
        check_successor_operands(2, 3),
        Err(TypeConversionError::SignatureArgumentCountMismatch { expected: 2, actual: 3 })
    ));
    assert!(check_dropped_argument(1, 0, 5, 0, false).is_ok());
    assert!(check_dropped_argument(1, 0, 5, 2, true).is_ok());
    assert!(matches!(
        check_dropped_argument(1, 0, 5, 0, true),
        Err(TypeConversionError::CannotDropUsedArgument { block: 1, index: 0, value: 5 })
    ));
}

#[test]
fn cast_reconciliation_decisions() {
    assert!(casts_to_same_types(&[1, 2], &[1, 2]));
    assert!(!casts_to_same_types(&[1, 2], &[1, 3]));
    assert!(!casts_to_same_types(&[1], &[1, 1]));
    assert!(is_cast_chain(&[4, 5], Some((true, &[4, 5]))));
    assert!(!is_cast_chain(&[4, 5], Some((false, &[4, 5]))));
    assert!(!is_cast_chain(&[4, 5], Some((true, &[4]))));
    assert!(!is_cast_chain(&[4], None));
    assert!(!is_cast_chain(&[], Some((true, &[]))));
    assert!(is_dead(&[false, false]));
    assert!(is_dead(&[]));
    assert!(!is_dead(&[false, true]));
    let patterns = reconcile_patterns();
    assert_eq!(
        patterns,
        vec![("CancelRoundTripCast", 100), ("RemoveIdentityCast", 90), ("CollapseCastChain", 80), ("RemoveDeadCast", 10)]
    );
    assert_eq!(CAST_OPERATION, "builtin.unrealized_conversion_cast");
}
