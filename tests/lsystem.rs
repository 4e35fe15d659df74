use lsystem::grammar::{generate_next, Lsystem};
use lsystem::rules::{Rule, RuleSet};
use lsystem::scale;
use lsystem::turtle::{interpret, Segment, Status, Step, TurtleMachine, TurtleState};

fn chars(s: &str) -> Vec<char> {
    s.chars().collect()
}

fn text(v: &[char]) -> String {
    v.iter().collect()
}

fn plant_rules() -> RuleSet {
    let mut r = RuleSet::new();
    r.register('F', chars("FF+[+F-F-F]-[-F+F+F]"));
    r
}

#[test]
fn plant_one_generation() {
    let mut sys = Lsystem::new(chars("F"), plant_rules());
    sys.generate();
    assert_eq!(sys.generation, 1);
    assert_eq!(sys.sentence.len(), "FF+[+F-F-F]-[-F+F+F]".len());
    assert_eq!(sys.sentence.len(), 20);
    assert_eq!(text(&sys.sentence), "FF+[+F-F-F]-[-F+F+F]");
}

#[test]
fn plant_first_segment() {
    let mut sys = Lsystem::new(chars("F"), plant_rules());
    sys.generate();
    let d = interpret(sys.sentence.clone(), 10, 25);
    assert_eq!(d.error, None);
    let first = d.segments[0];
    assert_eq!(first, Segment { from: 0, to: 1, heading: 0 });
    let angle = (first.heading as f64) * 25.0_f64.to_radians();
    let end = (10.0 * angle.cos(), 10.0 * angle.sin());
    assert_eq!(end, (10.0, 0.0));
    assert_eq!(d.open_branches, 0);
}

#[test]
fn fibonacci_lengths() {
    let mut r = RuleSet::new();
    r.register('A', chars("AB"));
    r.register('B', chars("A"));
    let mut sys = Lsystem::new(chars("A"), r);
    let mut lens = vec![sys.sentence.len()];
    for g in 1..5 {
        sys.generate();
        assert_eq!(sys.generation, g);
        lens.push(sys.sentence.len());
    }
    assert_eq!(lens, vec![1, 2, 3, 5, 8]);
    assert_eq!(text(&sys.sentence), "ABAABABA");
}

#[test]
fn advance_is_deterministic() {
    let make = || {
        let mut r = RuleSet::new();
        r.register('A', chars("AB"));
        r.register('B', chars("A"));
        Lsystem::new(chars("AB"), r)
    };
    let mut a = make();
    let mut b = make();
    a.advance(6);
    b.advance(6);
    assert_eq!(a.sentence, b.sentence);
    assert_eq!(a.generation, 6);
    let mut c = make();
    for _ in 0..6 {
        c.generate();
    }
    assert_eq!(c.sentence, a.sentence);
}

#[test]
fn growth_is_a_power() {
    let mut r = RuleSet::new();
    r.register('F', chars("FFF"));
    let mut sys = Lsystem::new(chars("F"), r);
    sys.advance(4);
    assert_eq!(sys.sentence.len(), 81);
}

#[test]
fn empty_start_stays_empty() {
    let mut sys = Lsystem::new(Vec::new(), plant_rules());
    sys.generate();
    assert!(sys.sentence.is_empty());
    assert_eq!(sys.generation, 1);
}

#[test]
fn lookup_first_rule_wins_and_identity() {
    let mut r = RuleSet::new();
    r.register('X', chars("ab"));
    r.register('X', chars("cd"));
    assert_eq!(r.len(), 2);
    assert_eq!(r.lookup('X'), chars("ab"));
    assert_eq!(r.lookup('Y'), chars("Y"));
    let rule = Rule::new('Q', chars("QQ"));
    assert_eq!(rule.trigger, 'Q');
    assert_eq!(generate_next(&chars("XYX"), &r), chars("abYab"));
}

#[test]
fn balanced_program_closes_every_branch() {
    let d = interpret(chars("F[+F]F[-F[F]]"), 5, 90);
    assert_eq!(d.error, None);
    assert_eq!(d.open_branches, 0);
    assert_eq!(d.segments.len(), 5);
    assert_eq!(d.state, TurtleState { position: 3, heading: 0, step_length: 5, turn_angle: 90 });
}

#[test]
fn unbalanced_close_reports_index() {
    let d = interpret(chars("F]F"), 5, 90);
    assert_eq!(d.error, Some(1));
    assert_eq!(d.segments, vec![Segment { from: 0, to: 1, heading: 0 }]);
    let d = interpret(chars("[+]]F"), 5, 90);
    assert_eq!(d.error, Some(3));
    assert!(d.segments.is_empty());
}

#[test]
fn unclosed_branch_is_reported() {
    let d = interpret(chars("F[+F"), 5, 90);
    assert_eq!(d.error, None);
    assert_eq!(d.open_branches, 1);
    assert_eq!(d.state.heading, 1);
    assert_eq!(d.state.position, 2);
}

#[test]
fn close_restores_saved_state() {
    let mut m = TurtleMachine::new(chars("F+[-FF+G]X"), 7, 30);
    assert_eq!(m.step(), Step::Draw(Segment { from: 0, to: 1, heading: 0 }));
    assert_eq!(m.step(), Step::Moved);
    assert_eq!(m.step(), Step::Moved);
    let saved = m.state();
    assert_eq!(m.depth(), 1);
    assert_eq!(m.step(), Step::Moved);
    assert_eq!(m.step(), Step::Draw(Segment { from: 1, to: 2, heading: 0 }));
    assert_eq!(m.step(), Step::Draw(Segment { from: 2, to: 3, heading: 0 }));
    assert_eq!(m.step(), Step::Moved);
    assert_eq!(m.step(), Step::Draw(Segment { from: 3, to: 4, heading: 1 }));
    assert_ne!(m.state(), saved);
    assert_eq!(m.step(), Step::Moved);
    assert_eq!(m.state(), saved);
    assert_eq!(m.depth(), 0);
    assert_eq!(m.step(), Step::Moved);
    assert_eq!(m.step(), Step::Finished);
    assert_eq!(m.step(), Step::Finished);
}

#[test]
fn machine_stays_failed() {
    let mut m = TurtleMachine::new(chars("]F"), 1, 1);
    assert_eq!(m.step(), Step::Unbalanced(0));
    assert_eq!(m.step(), Step::Unbalanced(0));
}

#[test]
fn scale_halves_and_rounds_down() {
    assert_eq!(scale(100, 1, 2), 50);
    assert_eq!(scale(7, 1, 2), 3);
    assert_eq!(scale(u64::MAX, 3, 3), u64::MAX);
}

#[test]
fn machine_status_moves_through_states() {
    let mut m = TurtleMachine::new(chars("F]"), 1, 1);
    assert_eq!(m.status(), Status::Idle);
    m.step();
    assert_eq!(m.status(), Status::Drawing);
    m.step();
    assert_eq!(m.status(), Status::Failed(1));
}

#[test]
fn growth_ceiling_is_signalled() {
    let mut sys = Lsystem::new(chars("F"), plant_rules());
    assert_eq!(sys.generate_within(20), Ok(()));
    assert_eq!(sys.generation, 1);
    assert_eq!(sys.generate_within(100), Err(172));
    assert_eq!(sys.generation, 1);
    assert_eq!(text(&sys.sentence), "FF+[+F-F-F]-[-F+F+F]");
}
