use longrunner::coordinator::LongRunner;
use longrunner::ids::{has_random_shape, ID_FIXED_BITS, ID_FIXED_MASK};
use longrunner::messages::{Request, RequestMessage};
use longrunner::process::Job;
use longrunner::router::LongRunnerCtx;

#[test]
fn random_shape_is_version_four_with_the_standard_variant() {
    assert!(has_random_shape(0x67e5_5044_10b1_426f_9247_bb68_0e5f_e0c8));
    assert!(has_random_shape(ID_FIXED_BITS));
    // version 1
    assert!(!has_random_shape(0x67e5_5044_10b1_126f_9247_bb68_0e5f_e0c8));
    // variant bits 11
    assert!(!has_random_shape(0x67e5_5044_10b1_426f_c247_bb68_0e5f_e0c8));
    assert!(!has_random_shape(0));
    assert!(!has_random_shape(u128::MAX));
}

#[test]
fn random_shape_matches_what_the_uuid_crate_reports() {
    let known = uuid::Uuid::from_u128(0x67e5_5044_10b1_426f_9247_bb68_0e5f_e0c8);
    assert_eq!(known.get_version_num(), 4);
    assert_eq!(known.as_u128() & ID_FIXED_MASK, ID_FIXED_BITS);
    let mut round: u32 = 0;
    while round < 64 {
        assert!(has_random_shape(uuid::Uuid::new_v4().as_u128()));
        round += 1;
    }
}

#[test]
fn minted_process_ids_have_random_shape_and_differ() {
    let mut runner = LongRunner::new();
    let job = Job { origin: 1, pausable: false };
    let first = runner.queue(job).unwrap();
    let second = runner.queue(job).unwrap();
    assert!(has_random_shape(first));
    assert!(has_random_shape(second));
    assert_ne!(first, 0);
    assert_ne!(first, second);
    assert_eq!(uuid::Uuid::from_u128(first).get_version_num(), 4);
}

#[test]
fn minted_correlation_ids_have_random_shape() {
    let mut ctx: LongRunnerCtx<u8> = LongRunnerCtx::new();
    ctx.register(9, 0);
    let call = ctx.send(&9, Request { message: RequestMessage::Heartbeat }).unwrap();
    assert!(has_random_shape(call.guid));
    assert_eq!(uuid::Uuid::from_u128(call.guid).get_version_num(), 4);
}
