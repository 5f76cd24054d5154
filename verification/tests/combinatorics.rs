use card_counter::{m_choose, m_pick};

#[test]
fn choose_of_zero_is_one() {
    assert_eq!(m_choose(0, 0), 1);
    assert_eq!(m_choose(0, 1), 1);
    assert_eq!(m_choose(0, 17), 1);
    assert_eq!(m_choose(0, 20), 1);
}

#[test]
fn choose_above_pool_is_zero() {
    assert_eq!(m_choose(1, 0), 0);
    assert_eq!(m_choose(4, 3), 0);
    assert_eq!(m_choose(18, 17), 0);
    assert_eq!(m_choose(20, 5), 0);
}

#[test]
fn choose_exact_values() {
    assert_eq!(m_choose(1, 11), 11);
    assert_eq!(m_choose(2, 5), 10);
    assert_eq!(m_choose(2, 11), 55);
    assert_eq!(m_choose(3, 6), 20);
    assert_eq!(m_choose(3, 11), 165);
    assert_eq!(m_choose(3, 17), 680);
    assert_eq!(m_choose(10, 20), 184756);
}

#[test]
fn pick_exact_values() {
    assert_eq!(m_pick(0, 7), 1);
    assert_eq!(m_pick(2, 5), 20);
    assert_eq!(m_pick(3, 17), 4080);
    assert_eq!(m_pick(6, 3), 0);
    assert_eq!(m_pick(20, 20), 2432902008176640000);
}
