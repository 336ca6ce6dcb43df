use loadbalancer::addr::Addr;
use loadbalancer::backend::Backend;

fn targets_abc() -> Vec<Addr> {
    vec![Addr::v4(1, 10), Addr::v4(2, 20), Addr::v4(3, 30)]
}

#[test]
fn round_robin_cycles_in_order() {
    let mut b = Backend::new(targets_abc());
    let picks: Vec<Addr> = (0..6).map(|_| b.decide_target()).collect();
    assert_eq!(picks[0], Addr::v4(1, 10));
    assert_eq!(picks[1], Addr::v4(2, 20));
    assert_eq!(picks[2], Addr::v4(3, 30));
    assert_eq!(picks[3], Addr::v4(1, 10));
    assert_eq!(picks[4], Addr::v4(2, 20));
    assert_eq!(picks[5], Addr::v4(3, 30));
}

#[test]
fn round_robin_fair_counts() {
    let mut b = Backend::new(targets_abc());
    let mut count_a = 0;
    let mut count_b = 0;
    let mut count_c = 0;
    for _ in 0..9 {
        let t = b.decide_target();
        if t == Addr::v4(1, 10) {
            count_a += 1;
        } else if t == Addr::v4(2, 20) {
            count_b += 1;
        } else if t == Addr::v4(3, 30) {
            count_c += 1;
        }
    }
    assert_eq!(count_a, 3);
    assert_eq!(count_b, 3);
    assert_eq!(count_c, 3);
}

#[test]
fn single_target_repeats() {
    let mut b = Backend::new(vec![Addr::v6(0xdead, 0xbeef, 443)]);
    assert_eq!(b.decide_target(), Addr::v6(0xdead, 0xbeef, 443));
    assert_eq!(b.decide_target(), Addr::v6(0xdead, 0xbeef, 443));
}
