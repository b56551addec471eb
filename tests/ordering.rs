use carrier_pigeon::ordering::OrderingSystem;

fn nums<T>(items: &[(u16, T)]) -> Vec<u16> {
    items.iter().map(|(n, _)| *n).collect()
}

#[test]
fn reorders_out_of_order_arrivals() {
    let mut o: OrderingSystem<&str> = OrderingSystem::new();
    o.push(2, "c");
    assert_eq!(nums(&o.drain_ready()), Vec::<u16>::new());
    o.push(0, "a");
    assert_eq!(nums(&o.drain_ready()), vec![0]);
    o.push(1, "b");
    let out = o.drain_ready();
    assert_eq!(nums(&out), vec![1, 2]);
    assert_eq!(out[0].1, "b");
    assert_eq!(out[1].1, "c");
    assert_eq!(o.expected(), 3);
}

#[test]
fn stale_and_duplicate_numbers_are_dropped() {
    let mut o: OrderingSystem<u8> = OrderingSystem::new();
    o.push(0, 0);
    o.push(0, 1);
    o.push(3, 3);
    o.push(3, 4);
    assert_eq!(o.held_len(), 1);
    let out = o.drain_ready();
    assert_eq!(out, vec![(0, 0)]);
    o.push(1, 1);
    o.push(2, 2);
    assert_eq!(nums(&o.drain_ready()), vec![1, 2, 3]);
    assert_eq!(o.held_len(), 0);
}

#[test]
fn ordering_wraps_around() {
    let mut o: OrderingSystem<()> = OrderingSystem::new();
    for n in 0..65535u16 {
        o.push(n, ());
        o.drain_ready();
    }
    assert_eq!(o.expected(), 65535);
    o.push(1, ());
    o.push(0, ());
    o.push(65535, ());
    assert_eq!(nums(&o.drain_ready()), vec![65535, 0, 1]);
}

#[test]
fn drains_over_time_are_consecutive() {
    let mut o: OrderingSystem<()> = OrderingSystem::new();
    let mut all = vec![];
    for n in [4u16, 1, 0, 3, 2, 6, 5] {
        o.push(n, ());
        all.extend(nums(&o.drain_ready()));
    }
    assert_eq!(all, vec![0, 1, 2, 3, 4, 5, 6]);
}
