use evm2::fiber::{block_on_after_poll, block_on_current, AsyncError, BlockOnStep, CurrentFiber};

#[test]
fn block_on_requires_fiber() {
    assert!(matches!(block_on_current(None), Err(AsyncError::NotOnFiber)));
}

#[test]
fn block_on_polls_on_running_fiber() {
    let fiber = CurrentFiber::new();
    assert!(block_on_current(Some(&fiber)).is_ok());
}

#[test]
fn block_on_fails_on_cancelled_fiber() {
    let mut fiber = CurrentFiber::new();
    let resumed = fiber.suspend(Err(AsyncError::Cancelled));
    assert!(matches!(resumed, Err(AsyncError::Cancelled)));
    assert!(fiber.is_cancelled());
    assert!(matches!(block_on_current(Some(&fiber)), Err(AsyncError::Cancelled)));
}

#[test]
fn block_on_suspends_pending_and_returns_ready() {
    assert!(matches!(block_on_after_poll::<u32>(None), BlockOnStep::Suspend));
    assert!(matches!(block_on_after_poll(Some(3u32)), BlockOnStep::Return(3)));
}

#[test]
fn successful_resume_keeps_fiber_running() {
    let mut fiber = CurrentFiber::new();
    assert!(fiber.suspend(Ok(())).is_ok());
    assert!(!fiber.is_cancelled());
}

#[test]
fn with_inner_error_keeps_variant() {
    let e: AsyncError<u8> = AsyncError::Runtime.with_inner_error();
    assert!(matches!(e, AsyncError::Runtime));
    let e: AsyncError<u8> = AsyncError::NotOnFiber.with_inner_error();
    assert!(matches!(e, AsyncError::NotOnFiber));
}
