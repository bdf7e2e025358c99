use firedbg_rust_debugger::samples::{
    advance, chain, choose_a_car_for_me, create_auto_car, create_manual_car, dice, factorial,
    flip, func, iter, partition, prolog, quick_sort, res_13, res_14, res_15, res_box, res_enum, res_obj,
    run, shrink, usize_pair, Bad, Direction, EngineConfig, Gearbox, Good, Greek, Piston, Size,
};

#[test]
fn factorial_values() {
    assert_eq!(factorial(0), 1);
    assert_eq!(factorial(1), 1);
    assert_eq!(factorial(5), 120);
    assert_eq!(factorial(12), 479001600);
}

#[test]
fn chain_sums() {
    assert_eq!(chain(0), 0);
    assert_eq!(chain(1), 1);
    assert_eq!(chain(10), 55);
}

#[test]
fn enum_steps() {
    assert_eq!(shrink(Size::Big), Size::Medium);
    assert_eq!(shrink(Size::Medium), Size::Small);
    assert_eq!(flip(Direction::North), Direction::South);
    assert_eq!(flip(Direction::East), Direction::West);
    assert_eq!(flip(Direction::South), Direction::North);
    assert_eq!(flip(Direction::West), Direction::East);
    assert_eq!(advance(Greek::Alpha), Greek::Beta);
    assert_eq!(advance(Greek::Beta), Greek::Gamma);
    assert_eq!(advance(Greek::Gamma), Greek::Delta);
    assert_eq!(advance(Greek::Delta), Greek::Epsilon);
}

#[test]
fn flip_twice_is_identity() {
    for d in [Direction::North, Direction::East, Direction::South, Direction::West] {
        assert_eq!(flip(flip(d)), d);
    }
}

#[test]
fn results_and_options() {
    assert_eq!(res_13(0), Ok(()));
    assert_eq!(res_13(1), Err(true));
    assert_eq!(res_13(2), Err(false));
    assert_eq!(res_14(0), Err(()));
    assert_eq!(res_14(1), Ok(true));
    assert_eq!(res_14(2), Ok(false));
    assert_eq!(res_15(0), Ok(false));
    assert_eq!(res_15(1), Ok(true));
    assert_eq!(res_15(2), Err(false));
    assert_eq!(res_15(3), Err(true));
    assert_eq!(res_enum(1), Some(Gearbox::Automatic));
    assert_eq!(res_enum(2), Some(Gearbox::Manual));
    assert_eq!(res_enum(3), None);
    assert_eq!(usize_pair(0), None);
    assert_eq!(usize_pair(7), Some((1234, 5678)));
}

#[test]
fn good_and_bad_swap() {
    assert_eq!(func(Ok(Good(1))), Err(Bad { i: 2 }));
    assert_eq!(func(Err(Bad { i: 5 })), Ok(Good(6)));
}

#[test]
fn counting_down() {
    assert_eq!(iter(5), vec![5, 4, 3, 2, 1]);
    assert_eq!(iter(1), vec![1]);
    assert_eq!(iter(0), Vec::<i32>::new());
    assert_eq!(iter(-3), Vec::<i32>::new());
}

#[test]
fn dice_and_prolog() {
    assert_eq!(dice(6), Ok(6));
    assert_eq!(prolog(1, 2, 3), Ok((1, 2, 3)));
}

#[test]
fn cars() {
    let manual = create_manual_car();
    assert_eq!(manual.brand, "Ford");
    assert_eq!(manual.engine.config, EngineConfig::Inline { i: 4 });
    assert_eq!(
        manual.engine.pistons,
        vec![Piston(1), Piston(2), Piston(3), Piston(4)]
    );
    assert_eq!(manual.gearbox, Gearbox::Manual);
    let auto = create_auto_car();
    assert_eq!(auto.brand, "Mazda");
    assert_eq!(auto.engine.config, EngineConfig::Vshape(3, 3));
    assert!(auto.engine.pistons.is_empty());
    assert_eq!(auto.gearbox, Gearbox::Automatic);
    assert_eq!(choose_a_car_for_me(true, &manual, &auto).brand, "Ford");
    assert_eq!(choose_a_car_for_me(false, &manual, &auto).brand, "Mazda");
    assert_eq!(res_obj(1), Some(create_manual_car()));
    assert_eq!(res_obj(0), None);
    let boxed = res_box(1).unwrap();
    assert_eq!(boxed.brand, "Nil");
    assert_eq!(boxed.engine.config, EngineConfig::Inline { i: 0 });
    assert!(boxed.engine.pistons.is_empty());
    assert_eq!(boxed.gearbox, Gearbox::Automatic);
    assert!(res_box(0).is_none());
}

#[test]
fn partition_around_last() {
    let mut v = vec![3, 9, 1, 5];
    let p = partition(&mut v, 0, 3);
    assert_eq!(v[p as usize], 5);
    assert!(v[..p as usize].iter().all(|x| *x <= 5));
    assert!(v[p as usize + 1..].iter().all(|x| *x >= 5));
}

#[test]
fn sort_numbers_ascending() {
    let mut numbers = vec![4, 65, 2, -31, 0, 99, 2, 83, 782, 1];
    run(&mut numbers);
    assert_eq!(numbers, vec![-31, 0, 1, 2, 2, 4, 65, 83, 99, 782]);
    let mut one = vec![7];
    run(&mut one);
    assert_eq!(one, vec![7]);
}

#[test]
fn sort_a_middle_range() {
    let mut v = vec![9, 5, 4, 3, 0];
    quick_sort(&mut v, 1, 3);
    assert_eq!(v, vec![9, 3, 4, 5, 0]);
}
