//! The results channel paces the walk: with a zero-capacity channel the
//! producer cannot advance past delivering its first result until the
//! consumer reads, and each read lets exactly one more result through.
//! Dropping the receiver is the cancellation signal: the producer's next
//! send fails and it stops.

use crossbeam::channel::{bounded, unbounded, TryRecvError};

#[test]
fn backpressure_blocks_the_producer() {
    let (tx, rx) = bounded::<u64>(0);
    let (ptx, prx) = unbounded::<String>();
    crossbeam::scope(|scope| {
        scope.spawn(move |_| {
            for i in 0..3u64 {
                ptx.send(format!("attempting {i}")).unwrap();
                if tx.send(i).is_err() {
                    return;
                }
                ptx.send(format!("sent {i}")).unwrap();
            }
        });

        // the producer reaches its first send and can go no further: any
        // further progress note would require that send to complete first
        assert_eq!(prx.recv().unwrap(), "attempting 0");
        assert!(
            matches!(prx.try_recv(), Err(TryRecvError::Empty)),
            "the producer must be blocked on its first result"
        );

        // each read lets exactly one more result through
        assert_eq!(rx.recv().unwrap(), 0);
        assert_eq!(prx.recv().unwrap(), "sent 0");
        assert_eq!(prx.recv().unwrap(), "attempting 1");
        assert!(matches!(prx.try_recv(), Err(TryRecvError::Empty)));
        assert_eq!(rx.recv().unwrap(), 1);
        assert_eq!(prx.recv().unwrap(), "sent 1");
        assert_eq!(prx.recv().unwrap(), "attempting 2");
        assert_eq!(rx.recv().unwrap(), 2);
    })
    .unwrap();
}

#[test]
fn dropping_the_receiver_stops_the_producer() {
    let (tx, rx) = bounded::<u64>(0);
    let (ptx, prx) = unbounded::<u64>();
    crossbeam::scope(|scope| {
        scope.spawn(move |_| {
            let mut i = 0u64;
            loop {
                if tx.send(i).is_err() {
                    ptx.send(i).unwrap();
                    return;
                }
                i += 1;
            }
        });

        assert_eq!(rx.recv().unwrap(), 0);
        drop(rx);

        // the producer notices the dropped receiver and stops on its own
        let stopped_at = prx.recv().unwrap();
        assert!(stopped_at >= 1);
    })
    .unwrap();
}
