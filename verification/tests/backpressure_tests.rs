use tokio::sync::mpsc::error::TrySendError;

#[test]
fn command_queue_applies_backpressure_when_full() {
    // With queue capacity C, the (C+1)th submission cannot proceed until a
    // slot frees; it suspends instead of dropping the command.
    let capacity = 2;
    let runtime = tokio::runtime::Runtime::new().unwrap();
    runtime.block_on(async {
        let (tx, mut rx) = tokio::sync::mpsc::channel::<u32>(capacity);
        tx.send(1).await.unwrap();
        tx.send(2).await.unwrap();
        // The queue is full: an immediate submission is refused outright.
        assert!(matches!(tx.try_send(3), Err(TrySendError::Full(3))));
        // A suspending submission completes only once a slot frees.
        let pending = tokio::spawn(async move {
            tx.send(3).await.unwrap();
        });
        assert_eq!(rx.recv().await, Some(1));
        pending.await.unwrap();
        assert_eq!(rx.recv().await, Some(2));
        assert_eq!(rx.recv().await, Some(3));
    });
}
