use block_allocator::parallel_group::ParallelGroup;

#[test]
fn push_goes_round_robin() {
    let mut g: ParallelGroup<u32> = ParallelGroup::with_groups(3);
    for i in 0..7 {
        g.push(i);
    }
    assert_eq!(g.get_group_by_thread(0), Some(&[0u32, 3, 6][..]));
    assert_eq!(g.get_group_by_thread(1), Some(&[1u32, 4][..]));
    assert_eq!(g.get_group_by_thread(2), Some(&[2u32, 5][..]));
    assert_eq!(g.get_group_by_thread(3), None);
}

#[test]
fn new_has_a_group_per_thread() {
    let mut g: ParallelGroup<u8> = ParallelGroup::new();
    assert_eq!(g.get_group_by_thread(0), Some(&[][..]));
    g.push(7);
    assert_eq!(g.get_group_by_thread(0), Some(&[7u8][..]));
    assert_eq!(g.get_group_by_thread(usize::MAX), None);
}

#[test]
fn clear_keeps_groups_and_cursor() {
    let mut g: ParallelGroup<u32> = ParallelGroup::with_groups(2);
    g.push(1);
    g.clear();
    assert_eq!(g.get_group_by_thread(0), Some(&[][..]));
    assert_eq!(g.get_group_by_thread(1), Some(&[][..]));
    g.push(2);
    assert_eq!(g.get_group_by_thread(0), Some(&[][..]));
    assert_eq!(g.get_group_by_thread(1), Some(&[2u32][..]));
}
