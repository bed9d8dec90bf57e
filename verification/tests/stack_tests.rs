use gitignore_nuke::immutable_stack::ImmutableStack;

#[test]
fn simple_stack() {
    let root = ImmutableStack::new();
    let tip = root.push(1).push(2).push(3);
    assert_eq!(tip.iter().into_iter().cloned().collect::<Vec<_>>(), vec![3, 2, 1]);
}

#[test]
fn split_stack() {
    let tip = ImmutableStack::new().push(1).push(2).push(3);

    let a = tip.push(4).push(5);
    let b = tip.push(99).push(100);

    assert_eq!(tip.iter().into_iter().cloned().collect::<Vec<_>>(), vec![3, 2, 1]);
    assert_eq!(a.iter().into_iter().cloned().collect::<Vec<_>>(), vec![5, 4, 3, 2, 1]);
    assert_eq!(b.iter().into_iter().cloned().collect::<Vec<_>>(), vec![100, 99, 3, 2, 1]);
}

#[test]
fn push_leaves_original_alone() {
    let s = ImmutableStack::new().push(10).push(20);
    let before: Vec<i32> = s.iter().into_iter().cloned().collect();
    let extended = s.push(30);
    let after: Vec<i32> = s.iter().into_iter().cloned().collect();
    assert_eq!(before, after);
    assert_eq!(extended.iter().into_iter().cloned().collect::<Vec<_>>(), vec![30, 20, 10]);
}

#[test]
fn clone_iterates_alike() {
    let s = ImmutableStack::new().push(7).push(8).push(9);
    let c = s.clone();
    let from_s: Vec<i32> = s.iter().into_iter().cloned().collect();
    let from_c: Vec<i32> = c.iter().into_iter().cloned().collect();
    assert_eq!(from_s, from_c);
}

#[test]
fn deep_chain_drops_without_overflow() {
    let mut tip = ImmutableStack::new();
    for i in 0..100_000u32 {
        tip = tip.push(i);
    }
    let head: Vec<u32> = tip.iter().into_iter().take(3).cloned().collect();
    assert_eq!(head, vec![99_999, 99_998, 99_997]);
    drop(tip);
}
