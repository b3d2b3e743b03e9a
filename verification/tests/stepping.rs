use unfold::Unfold;

#[test]
fn check_five() {
    let mut un = Unfold::new(
        1,
        |&mut x: &mut i32| if x > 5 { None } else { Some((x + 1, x)) },
    );

    assert_eq!(un.next(), Some(1));
    assert_eq!(un.next(), Some(2));
    assert_eq!(un.next(), Some(3));
    assert_eq!(un.next(), Some(4));
    assert_eq!(un.next(), Some(5));
    assert_eq!(un.next(), None);
    assert_eq!(un.next(), None);
}

#[test]
fn sum_100() {
    let mut un = Unfold::new(
        1,
        |&mut x: &mut i32| if x > 100 { None } else { Some((x + 1, x)) },
    );

    assert_eq!(std::iter::from_fn(|| un.next()).sum::<i32>(), (1..=100).sum());
}

#[test]
fn sum_100_is_5050() {
    let mut un = Unfold::new(
        1,
        |&mut x: &mut i32| if x > 100 { None } else { Some((x + 1, x)) },
    );

    let mut total: i32 = 0;
    let mut count: usize = 0;
    while let Some(x) = un.next() {
        total += x;
        count += 1;
    }
    assert_eq!(total, 5050);
    assert_eq!(count, 100);
}

#[test]
fn exhaustion_is_reported_again_and_again() {
    let mut un = Unfold::new(
        1,
        |&mut x: &mut i32| if x > 2 { None } else { Some((x + 1, x * 10)) },
    );

    assert_eq!(un.next(), Some(10));
    assert_eq!(un.next(), Some(20));
    for _ in 0..1000 {
        assert_eq!(un.next(), None);
    }
}

#[test]
fn transition_that_ends_on_the_seed_gives_nothing() {
    let mut un = Unfold::new(7, |_: &mut i32| None::<(i32, i32)>);

    assert_eq!(un.next(), None);
    assert_eq!(un.next(), None);
}

#[test]
fn transition_that_never_ends_keeps_yielding() {
    let seed: i64 = 42;
    let mut un = Unfold::new(seed, |&mut x: &mut i64| Some((x + 1, x)));

    for index in 0..10_000i64 {
        assert_eq!(un.next(), Some(seed + index));
    }
}

#[test]
fn each_step_starts_from_the_state_the_last_one_produced() {
    let mut un = Unfold::new(-3, |&mut x: &mut i32| Some((x + 1, x)));

    let mut last: i32 = un.next().unwrap();
    assert_eq!(last, -3);
    for _ in 0..500 {
        let item: i32 = un.next().unwrap();
        assert_eq!(item, last + 1);
        last = item;
    }
}

#[test]
fn next_state_and_item_may_differ() {
    // Fibonacci numbers: the state is a pair, the item its first half.
    let mut un = Unfold::new((0u64, 1u64), |&mut (a, b): &mut (u64, u64)| Some(((b, a + b), a)));

    assert_eq!(un.next(), Some(0));
    assert_eq!(un.next(), Some(1));
    assert_eq!(un.next(), Some(1));
    assert_eq!(un.next(), Some(2));
    assert_eq!(un.next(), Some(3));
    assert_eq!(un.next(), Some(5));
    assert_eq!(un.next(), Some(8));
}

#[test]
fn state_and_items_need_not_be_copyable() {
    let mut un = Unfold::new(String::from("a"), |s: &mut String| {
        if s.len() > 3 {
            None
        } else {
            Some((format!("{}a", s), s.to_uppercase()))
        }
    });

    assert_eq!(un.next(), Some(String::from("A")));
    assert_eq!(un.next(), Some(String::from("AA")));
    assert_eq!(un.next(), Some(String::from("AAA")));
    assert_eq!(un.next(), None);
    assert_eq!(un.next(), None);
}

#[test]
fn transition_is_applied_once_per_step() {
    let mut calls: u32 = 0;
    {
        let mut un = Unfold::new(0, |&mut x: &mut i32| {
            calls += 1;
            if x >= 3 {
                None
            } else {
                Some((x + 1, x))
            }
        });
        assert_eq!(un.next(), Some(0));
        assert_eq!(un.next(), Some(1));
        assert_eq!(un.next(), Some(2));
        assert_eq!(un.next(), None);
    }
    assert_eq!(calls, 4);
}

#[test]
fn transition_is_applied_again_after_exhaustion() {
    let mut calls: u32 = 0;
    {
        let mut un = Unfold::new(0, |&mut x: &mut i32| {
            calls += 1;
            if x >= 1 {
                None
            } else {
                Some((x + 1, x))
            }
        });
        assert_eq!(un.next(), Some(0));
        assert_eq!(un.next(), None);
        assert_eq!(un.next(), None);
        assert_eq!(un.next(), None);
    }
    assert_eq!(calls, 4);
}

#[test]
fn construction_does_not_apply_the_transition() {
    let mut calls: u32 = 0;
    {
        let _un = Unfold::new(0, |&mut x: &mut i32| {
            calls += 1;
            Some((x + 1, x))
        });
    }
    assert_eq!(calls, 0);
}

#[test]
fn transition_may_draw_on_state_of_its_own() {
    let mut budget: u32 = 3;
    let mut un = Unfold::new(10, |&mut x: &mut i32| {
        if budget == 0 {
            None
        } else {
            budget -= 1;
            Some((x * 2, x))
        }
    });

    assert_eq!(un.next(), Some(10));
    assert_eq!(un.next(), Some(20));
    assert_eq!(un.next(), Some(40));
    assert_eq!(un.next(), None);
    assert_eq!(un.next(), None);
}

#[test]
fn what_the_transition_writes_is_replaced_by_the_next_state() {
    let mut un = Unfold::new(0, |x: &mut i32| {
        let seen: i32 = *x;
        *x += 1000;
        Some((seen + 1, seen))
    });

    assert_eq!(un.next(), Some(0));
    assert_eq!(un.next(), Some(1));
    assert_eq!(un.next(), Some(2));
}
