use booth::helpers::clamp_input;
use booth::helpers::get_bit;
use booth::model::Action;
use booth::model::Step;
use booth::engine::next_step;
use booth::trace::all_steps;
use booth::trace::initial_step;

fn run(a: i32, b: i32, bits: i32) -> Vec<Step> {
    let init = initial_step(b, bits);
    all_steps(&init, a, bits)
}

#[test]
fn scenario_three_times_minus_seven() {
    let steps = run(3, -7, 5);
    let last = steps.last().unwrap();
    assert_eq!(last.product, -21);
    assert_eq!(last.shift_steps, 5);
}

#[test]
fn scenario_zero_multiplicand() {
    for b in [-16, -7, -1, 0, 1, 9, 15] {
        let steps = run(0, b, 5);
        assert_eq!(steps.last().unwrap().product, 0);
    }
    // A zero multiplier has no recoding boundary anywhere, so the trace is
    // pure shifting.
    for s in run(0, 0, 5).iter().skip(1) {
        assert_eq!(s.action, Action::Shift);
    }
}

#[test]
fn scenario_negative_times_negative() {
    let steps = run(-7, -7, 5);
    assert_eq!(steps.last().unwrap().product, 49);
}

#[test]
fn scenario_single_bit_width() {
    let steps = run(-1, -1, 1);
    let last = steps.last().unwrap();
    assert_eq!(last.product, 1);
    assert_eq!(last.shift_steps, 1);
    let actions: Vec<Action> = steps.iter().map(|s| s.action).collect();
    assert_eq!(actions, vec![Action::Init, Action::Sub, Action::Shift]);
}

#[test]
fn full_trace_of_a_tiny_run() {
    let steps = run(1, -1, 2);
    let expected = [
        (0, 0, Action::Init, 3, 0),
        (1, 0, Action::Sub, -1, 0),
        (2, 1, Action::Shift, -1, 1),
        (3, 2, Action::Shift, -1, 1),
    ];
    assert_eq!(steps.len(), expected.len());
    for (s, e) in steps.iter().zip(expected.iter()) {
        assert_eq!(s.step, e.0);
        assert_eq!(s.shift_steps, e.1);
        assert_eq!(s.action, e.2);
        assert_eq!(s.product, e.3);
        assert_eq!(s.additional, e.4);
        assert_eq!(s.bits, 2);
    }
}

#[test]
fn product_is_exact_over_the_whole_range() {
    for bits in 1..=6 {
        let lo = -(1 << (bits - 1));
        let hi = (1 << (bits - 1)) - 1;
        for a in lo..=hi {
            for b in lo..=hi {
                let steps = run(a, b, bits);
                assert_eq!(steps.last().unwrap().product, a * b);
            }
        }
    }
}

#[test]
fn trace_terminates_at_the_width() {
    for bits in 1..=15 {
        let a = 5 % (1 << (bits - 1));
        let steps = run(a, 0, bits);
        let last = steps.last().unwrap();
        assert_eq!(last.shift_steps, bits);
        assert!(steps.len() as i32 <= 2 * bits + 1);
        for s in &steps[..steps.len() - 1] {
            assert!(s.shift_steps < bits);
        }
    }
}

#[test]
fn counters_are_monotonic() {
    let steps = run(11, -13, 5);
    for (i, pair) in steps.windows(2).enumerate() {
        assert_eq!(pair[1].step, pair[0].step + 1);
        assert!(pair[1].shift_steps >= pair[0].shift_steps);
        assert_eq!(pair[0].step, i as i32);
    }
}

#[test]
fn identical_inputs_give_identical_traces() {
    let first = run(9, -12, 5);
    let second = run(9, -12, 5);
    assert_eq!(first, second);
}

#[test]
fn rederiving_any_step_reproduces_the_trace() {
    let steps = run(-5, 11, 5);
    for pair in steps.windows(2) {
        assert_eq!(next_step(&pair[0], -5), pair[1]);
    }
}

#[test]
fn initial_step_masks_the_multiplier() {
    let init = initial_step(-7, 5);
    assert_eq!(init.product, 25);
    assert_eq!(init.step, 0);
    assert_eq!(init.shift_steps, 0);
    assert_eq!(init.additional, 0);
    assert_eq!(init.action, Action::Init);
    assert_eq!(init.bits, 5);
    assert_eq!(initial_step(3, 5).product, 3);
    assert_eq!(initial_step(-16, 5).product, 16);
}

#[test]
fn clamp_input_restricts_to_the_width() {
    assert_eq!(clamp_input(100, 5), 15);
    assert_eq!(clamp_input(-100, 5), -16);
    assert_eq!(clamp_input(7, 5), 7);
    assert_eq!(clamp_input(-16, 5), -16);
    assert_eq!(clamp_input(5, 1), 0);
    assert_eq!(clamp_input(-5, 1), -1);
    assert_eq!(clamp_input(0, 15), 0);
}

#[test]
fn get_bit_reads_twos_complement_bits() {
    assert_eq!(get_bit(6, 0), 0);
    assert_eq!(get_bit(6, 1), 1);
    assert_eq!(get_bit(6, 2), 1);
    assert_eq!(get_bit(6, 3), 0);
    for k in 0..=30 {
        assert_eq!(get_bit(-1, k), 1);
    }
    assert_eq!(get_bit(-2, 0), 0);
    assert_eq!(get_bit(-2, 1), 1);
}

#[test]
fn action_names() {
    assert_eq!(Action::Init.to_string(), "Init");
    assert_eq!(Action::Add.to_string(), "Add");
    assert_eq!(Action::Sub.to_string(), "Sub");
    assert_eq!(Action::Shift.to_string(), "Shift");
}
