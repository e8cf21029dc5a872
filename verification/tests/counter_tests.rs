use script_host::Counter;
use script_host::RequestMeter;
use script_host::probe_value;

#[test]
fn counter_hands_out_zero_to_n_minus_one() {
    let mut c = Counter::new();
    for i in 0..5u64 {
        assert_eq!(c.next(), i);
    }
}

#[test]
fn meter_drain_returns_count_and_resets() {
    let mut m = RequestMeter::new();
    m.record();
    m.record();
    m.record();
    assert_eq!(m.drain(), 3);
    assert_eq!(m.drain(), 0);
    m.record();
    assert_eq!(m.drain(), 1);
}

#[test]
fn probe_binding_returns_its_literal() {
    assert_eq!(probe_value(), 42);
}
