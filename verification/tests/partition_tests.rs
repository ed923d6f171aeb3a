use rate_fanout::partition::partition;

fn concat(groups: &[Vec<u32>]) -> Vec<u32> {
    let mut all = Vec::new();
    for g in groups {
        all.extend_from_slice(g);
    }
    all
}

#[test]
fn test_partition_even() {
    let items: Vec<u32> = (0..8).collect();
    let groups = partition(items.clone(), 4);
    assert_eq!(groups.len(), 4);
    for g in &groups {
        assert_eq!(g.len(), 2);
    }
    assert_eq!(concat(&groups), items);
}

#[test]
fn test_partition_uneven() {
    let items: Vec<u32> = (0..10).collect();
    let groups = partition(items.clone(), 4);
    assert_eq!(groups.len(), 4);
    let sizes: Vec<usize> = groups.iter().map(|g| g.len()).collect();
    assert_eq!(sizes, vec![3, 3, 2, 2]);
    assert_eq!(concat(&groups), items);
}

#[test]
fn test_partition_zero_items() {
    let items: Vec<u32> = Vec::new();
    let groups = partition(items, 5);
    assert_eq!(groups.len(), 5);
    for g in &groups {
        assert!(g.is_empty());
    }
}

#[test]
fn test_partition_single_worker() {
    let items: Vec<u32> = (0..7).collect();
    let groups = partition(items.clone(), 1);
    assert_eq!(groups.len(), 1);
    assert_eq!(groups[0], items);
}

#[test]
fn test_partition_more_workers_than_items() {
    let items: Vec<u32> = vec![10, 20, 30];
    let groups = partition(items.clone(), 7);
    assert_eq!(groups.len(), 7);
    let sizes: Vec<usize> = groups.iter().map(|g| g.len()).collect();
    assert_eq!(sizes, vec![1, 1, 1, 0, 0, 0, 0]);
    assert_eq!(concat(&groups), items);
}

#[test]
fn test_partition_sizes_differ_by_at_most_one() {
    for len in 0..50u32 {
        for n in 1..10usize {
            let items: Vec<u32> = (0..len).collect();
            let groups = partition(items.clone(), n);
            assert_eq!(groups.len(), n);
            let min = groups.iter().map(|g| g.len()).min().unwrap();
            let max = groups.iter().map(|g| g.len()).max().unwrap();
            assert!(max - min <= 1);
            assert_eq!(concat(&groups), items);
        }
    }
}

#[test]
fn test_partition_large_batch() {
    let items: Vec<u32> = (0..10_000).collect();
    let groups = partition(items.clone(), 4);
    assert_eq!(groups.len(), 4);
    for g in &groups {
        assert_eq!(g.len(), 2500);
    }
    assert_eq!(concat(&groups), items);
}
