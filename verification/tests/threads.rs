use actrs::List;
use std::sync::mpsc;

#[test]
fn read_shared_tail_from_multiple_threads() {
    let (tx, rx) = mpsc::channel();
    let tail: List<i32> = List::new(1).prepend(5).prepend(10);

    // Each list shares `tail`; every reader sums its own list.
    let mut lists = Vec::new();
    for n in 0..10 {
        lists.push(tail.prepend(n));
    }
    for list in lists {
        let tx = tx.clone();
        let mut sum: i32 = 0;
        let mut it = list.iter();
        while let Some(x) = it.next() {
            sum += *x;
        }
        tx.send(sum).unwrap();
    }
    drop(tx);

    let total: i32 = rx.iter().sum();
    assert_eq!(total, 205);
}
