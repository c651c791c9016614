use pfs_fuzz::classify::check_outcome;
use pfs_fuzz::classify::classify;
use pfs_fuzz::classify::RpcCode;
use pfs_fuzz::classify::Severity;

#[test]
fn only_invalid_argument_is_tolerable() {
    let fatal = vec![
        RpcCode::Cancelled,
        RpcCode::Unknown,
        RpcCode::DeadlineExceeded,
        RpcCode::NotFound,
        RpcCode::AlreadyExists,
        RpcCode::PermissionDenied,
        RpcCode::ResourceExhausted,
        RpcCode::FailedPrecondition,
        RpcCode::Aborted,
        RpcCode::OutOfRange,
        RpcCode::Unimplemented,
        RpcCode::Internal,
        RpcCode::Unavailable,
        RpcCode::DataLoss,
        RpcCode::Unauthenticated,
    ];
    for code in fatal {
        assert_eq!(classify(code), Severity::Fatal);
    }
    assert_eq!(classify(RpcCode::InvalidArgument), Severity::Tolerable);
}

#[test]
fn success_and_tolerable_failures_continue_the_run() {
    assert!(!check_outcome(None));
    assert!(!check_outcome(Some(RpcCode::InvalidArgument)));
    assert!(check_outcome(Some(RpcCode::Internal)));
    assert!(check_outcome(Some(RpcCode::DeadlineExceeded)));
    assert!(check_outcome(Some(RpcCode::Cancelled)));
}
