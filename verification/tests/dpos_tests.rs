use fs_blockchain::consensus::dpos;
use fs_blockchain::consensus::dpos::Delegate;
use fs_blockchain::consensus::dpos_simple;
use fs_blockchain::errors::AppError;

fn registry() -> Vec<Delegate> {
    vec![
        Delegate::new(1, "Alice"),
        Delegate::new(2, "Bob"),
        Delegate::new(3, "Charlie"),
    ]
}

#[test]
fn vote_on_unknown_id_reports_that_id() {
    let mut dpos = dpos::DPoS::new(registry());
    let r = dpos.vote(7, 10);
    assert_eq!(r, Err(AppError::DelegateNotFound(7)));
    let mut simple = dpos_simple::DPoS::new(registry());
    let r = simple.vote(9, 10);
    assert_eq!(r, Err(AppError::DelegateNotFound(9)));
}

#[test]
fn vote_adds_exactly_and_touches_no_other_delegate() {
    let mut dpos = dpos::DPoS::new(registry());
    assert!(dpos.vote(2, 25).is_ok());
    assert!(dpos.vote(2, 5).is_ok());
    assert_eq!(dpos.delegates[0].votes, 0);
    assert_eq!(dpos.delegates[1].votes, 30);
    assert_eq!(dpos.delegates[2].votes, 0);
}

#[test]
fn rotating_selection_cycles_with_period_of_top_set() {
    let mut dpos = dpos::DPoS::new(registry());
    assert!(dpos.vote(1, 100).is_ok());
    assert!(dpos.vote(2, 200).is_ok());
    assert!(dpos.vote(3, 120).is_ok());
    let mut ids = Vec::new();
    for _ in 0..6 {
        let id = dpos.select_delegate().unwrap().id;
        ids.push(id);
    }
    // Ranked by votes descending: Bob (200), Charlie (120), Alice (100);
    // the rotation repeats that order with period 3.
    assert_eq!(ids, vec![2, 3, 1, 2, 3, 1]);
}

#[test]
fn rotating_selection_breaks_ties_by_original_order() {
    let mut dpos = dpos::DPoS::new(registry());
    assert!(dpos.vote(1, 50).is_ok());
    assert!(dpos.vote(2, 50).is_ok());
    assert!(dpos.vote(3, 80).is_ok());
    let first = dpos.select_delegate().unwrap().id;
    let second = dpos.select_delegate().unwrap().id;
    let third = dpos.select_delegate().unwrap().id;
    assert_eq!((first, second, third), (3, 1, 2));
}

#[test]
fn rotating_selection_on_empty_registry_fails() {
    let mut dpos = dpos::DPoS::new(Vec::new());
    let r = dpos.select_delegate();
    assert!(matches!(r, Err(AppError::NoDelegates)));
}

#[test]
fn simple_selection_returns_first_maximum() {
    let mut simple = dpos_simple::DPoS::new(registry());
    assert!(simple.vote(1, 60).is_ok());
    assert!(simple.vote(2, 60).is_ok());
    let d = simple.select_delegate().unwrap();
    assert_eq!(d.id, 1);
    let d_again = simple.select_delegate().unwrap();
    assert_eq!(d_again.id, 1);
}

#[test]
fn simple_selection_on_empty_registry_returns_none() {
    let mut simple = dpos_simple::DPoS::new(Vec::new());
    assert!(simple.select_delegate().is_none());
}

#[test]
fn rotating_top_set_is_capped_at_ten() {
    let mut delegates = Vec::new();
    for id in 1..=12u64 {
        delegates.push(Delegate::new(id, &format!("delegate {}", id)));
    }
    let mut dpos = dpos::DPoS::new(delegates);
    for id in 1..=12u64 {
        // Delegate 1 gets the most votes, delegate 12 the fewest.
        assert!(dpos.vote(id, 1000 - id).is_ok());
    }
    let mut ids = Vec::new();
    for _ in 0..20 {
        ids.push(dpos.select_delegate().unwrap().id);
    }
    let expected: Vec<u64> = (1..=10).chain(1..=10).collect();
    assert_eq!(ids, expected);
}

#[test]
fn rotation_counter_wraps_around() {
    let mut dpos = dpos::DPoS::new(vec![Delegate::new(1, "Alice"), Delegate::new(2, "Bob")]);
    assert!(dpos.vote(1, 10).is_ok());
    assert!(dpos.vote(2, 5).is_ok());
    dpos.current_delegate_index = usize::MAX;
    // usize::MAX is odd, so the wrapped-around round picks the second of two.
    assert_eq!(dpos.select_delegate().unwrap().id, 2);
    assert_eq!(dpos.current_delegate_index, 0);
    assert_eq!(dpos.select_delegate().unwrap().id, 1);
}

#[test]
fn delegate_new_starts_with_zero_votes() {
    let d = Delegate::new(4, "Dora");
    assert_eq!(d.id, 4);
    assert_eq!(d.name, "Dora".to_string());
    assert_eq!(d.votes, 0);
}
