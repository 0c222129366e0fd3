use ml_service::error::InitError;
use ml_service::pool::check_input_widths;
use ml_service::pool::session_index;
use ml_service::pool::SessionPool;
use ml_service::pool::DEFAULT_SESSIONS;

#[test]
fn session_index_is_the_ticket_modulo_the_pool_size() {
    assert_eq!(session_index(0, 16), 0);
    assert_eq!(session_index(15, 16), 15);
    assert_eq!(session_index(16, 16), 0);
    assert_eq!(session_index(37, 16), 5);
    assert_eq!(session_index(7, 1), 0);
    assert_eq!(session_index(usize::MAX, 16), 15);
    assert_eq!(session_index(10, 3), 1);
}

#[test]
fn round_robin_over_sixteen_sessions_is_even() {
    assert_eq!(DEFAULT_SESSIONS, 16);
    let (pool, widths) = SessionPool::build(DEFAULT_SESSIONS, |i| Some((i * 100, 52))).unwrap();
    assert_eq!(widths, vec![52usize; 16]);
    let mut chosen = vec![0usize; 16];
    for request in 0..160 {
        let (index, session) = pool.checkout();
        assert_eq!(index, request % 16);
        assert_eq!(*session, index * 100);
        chosen[index] += 1;
    }
    assert_eq!(chosen, vec![10usize; 16]);
}

#[test]
fn session_frequencies_differ_by_at_most_one() {
    let pool = SessionPool::new(vec!['a', 'b', 'c', 'd', 'e', 'f', 'g']).unwrap();
    for _ in 0..3 {
        pool.checkout();
    }
    let mut chosen = vec![0usize; 7];
    for _ in 0..100 {
        let (index, _) = pool.checkout();
        chosen[index] += 1;
    }
    let most = *chosen.iter().max().unwrap();
    let least = *chosen.iter().min().unwrap();
    assert_eq!(least, 100 / 7);
    assert_eq!(most, 100 / 7 + 1);
    assert_eq!(chosen.iter().sum::<usize>(), 100);
}

#[test]
fn a_pool_of_one_always_hands_out_its_session() {
    let pool = SessionPool::new(vec!["only"]).unwrap();
    assert_eq!(pool.len(), 1);
    for _ in 0..5 {
        let (index, session) = pool.checkout();
        assert_eq!(index, 0);
        assert_eq!(*session, "only");
    }
}

#[test]
fn a_pool_needs_a_session() {
    let none: Vec<u8> = Vec::new();
    assert_eq!(SessionPool::new(none).err(), Some(InitError::ModelLoad));
    assert_eq!(
        SessionPool::build(0, |i| Some((i, 52))).err(),
        Some(InitError::ModelLoad)
    );
}

#[test]
fn one_failed_session_fails_the_pool() {
    let built = SessionPool::build(16, |i| if i == 11 { None } else { Some((i, 52)) });
    assert_eq!(built.err(), Some(InitError::ModelLoad));
    assert_eq!(InitError::ModelLoad.message(), "Failed to load the model");
}

#[test]
fn sessions_are_loaded_in_order_up_to_the_first_failure() {
    let seen = std::cell::RefCell::new(Vec::new());
    let built = SessionPool::build(5, |i| {
        seen.borrow_mut().push(i);
        if i == 2 {
            None
        } else {
            Some((i, 52))
        }
    });
    assert!(built.is_err());
    assert_eq!(*seen.borrow(), vec![0, 1, 2]);
}

#[test]
fn a_built_pool_holds_what_was_loaded() {
    let (pool, widths) =
        SessionPool::build(4, |i| Some((format!("session-{}", i), 10 + i))).unwrap();
    assert_eq!(widths, vec![10, 11, 12, 13]);
    assert_eq!(pool.len(), 4);
    assert_eq!(pool.session(0), "session-0");
    assert_eq!(pool.session(3), "session-3");
}

#[test]
fn declared_widths_must_all_equal_the_feature_count() {
    assert_eq!(check_input_widths(&vec![52, 52, 52], 52), Ok(()));
    assert_eq!(check_input_widths(&vec![1], 1), Ok(()));
    assert_eq!(check_input_widths(&Vec::new(), 52), Ok(()));
    assert_eq!(
        check_input_widths(&vec![52, 51, 52], 52),
        Err(InitError::InputWidth)
    );
    assert_eq!(
        check_input_widths(&vec![52, 52, 53], 52),
        Err(InitError::InputWidth)
    );
    assert_eq!(check_input_widths(&vec![0], 52), Err(InitError::InputWidth));
    assert_eq!(
        InitError::InputWidth.message(),
        "Model input width differs from the number of features"
    );
}
