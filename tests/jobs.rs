use concurr::client::{finish_attempt, Outcome, ResultsCache};
use concurr::codec::{CodecError, ResponseEvent};
use concurr::drain::Drain;
use concurr::jobs::{InsertJob, Inputs, Outputs, Retries, MAX_ATTEMPTS};
use concurr::registry::{Registered, Registry};
use concurr::service::{input_response, slot_step, SlotAction};
use concurr::source::{input_line, read_line};
use concurr::template::Tokens;

#[test]
fn queue_is_first_in_first_out() {
    let mut q = Inputs::new();
    q.push(0, "a".into());
    q.insert_job(1, "b".into());
    assert_eq!(q.len(), 2);
    assert_eq!(q.get_job(), Some((0, "a".to_string())));
    assert_eq!(q.pop(), Some((1, "b".to_string())));
    assert_eq!(q.pop(), None);
}

#[test]
fn an_outcome_is_stored_once_per_id() {
    let mut o: Outputs<u8> = Outputs::new();
    assert!(o.insert(3, 1));
    assert!(!o.insert(3, 2));
    assert_eq!(o.remove(3), Some(1));
    assert!(!o.insert(3, 5));
    assert_eq!(o.remove(3), None);
}

#[test]
fn drain_emits_in_id_order_whatever_the_arrival_order() {
    let mut o: Outputs<usize> = Outputs::new();
    let mut d = Drain::new();
    let arrival = [4usize, 2, 0, 3, 1];
    let mut seen = Vec::new();
    for id in arrival {
        o.insert(id, id * 10);
        while let Some((got, v)) = d.poll(&mut o) {
            assert_eq!(v, got * 10);
            seen.push(got);
        }
    }
    assert_eq!(seen, vec![0, 1, 2, 3, 4]);
    assert!(!d.is_done());
    d.finish(5);
    assert!(d.is_done());
    assert_eq!(d.poll(&mut o), None);
}

#[test]
fn drain_is_done_only_after_all_results() {
    let mut o: Outputs<u8> = Outputs::new();
    let mut d = Drain::new();
    d.finish(2);
    assert!(!d.is_done());
    assert_eq!(d.poll(&mut o), None);
    o.insert(0, 7);
    assert_eq!(d.poll(&mut o), Some((0, 7)));
    assert_eq!(d.next_id(), 1);
    assert!(!d.is_done());
    o.insert(1, 8);
    assert_eq!(d.poll(&mut o), Some((1, 8)));
    assert!(d.is_done());
}

#[test]
fn drain_with_no_inputs_is_done_at_once() {
    let mut d = Drain::new();
    d.finish(0);
    assert!(d.is_done());
}

#[test]
fn retries_come_before_new_inputs() {
    let mut q = Inputs::new();
    q.push(0, "a".into());
    q.push(1, "b".into());
    let mut r = Retries::new();
    let first = r.next_input(&mut q).unwrap();
    assert_eq!(first, (0, "a".to_string(), 0));
    assert!(!r.record_failure(first.0, first.1, first.2));
    assert_eq!(r.next_input(&mut q), Some((0, "a".to_string(), 1)));
    assert_eq!(r.next_input(&mut q), Some((1, "b".to_string(), 0)));
    assert_eq!(r.next_input(&mut q), None);
}

#[test]
fn each_input_is_attempted_at_most_max_attempts_times() {
    let mut q = Inputs::new();
    q.push(0, "x".into());
    let mut r = Retries::new();
    let mut o: Outputs<Outcome> = Outputs::new();
    let mut attempts = 0;
    while let Some(a) = r.next_input(&mut q) {
        attempts += 1;
        finish_attempt(&mut o, &mut r, a, None);
    }
    assert_eq!(attempts, MAX_ATTEMPTS as usize);
    assert_eq!(o.remove(0), Some(Outcome::Failed("x".into())));
}

#[test]
fn retry_then_success() {
    let mut q = Inputs::new();
    q.push(5, "x".into());
    let mut r = Retries::new();
    let mut o: Outputs<Outcome> = Outputs::new();
    let a = r.next_input(&mut q).unwrap();
    assert!(!finish_attempt(&mut o, &mut r, a, Some(ResponseEvent::Info("not found".into()))));
    let a = r.next_input(&mut q).unwrap();
    assert_eq!(a.2, 1);
    let out = ResponseEvent::Output(5, 0, "x\n".into(), String::new());
    assert!(finish_attempt(&mut o, &mut r, a, Some(out)));
    assert_eq!(o.remove(5), Some(Outcome::Completed(0, "x\n".into(), String::new())));
    assert_eq!(r.next_input(&mut q), None);
}

#[test]
fn permanent_failure_scenario() {
    let mut q = Inputs::new();
    for (i, w) in ["a", "b", "c"].iter().enumerate() {
        q.push(i, w.to_string());
    }
    let mut r = Retries::new();
    let mut o: Outputs<Outcome> = Outputs::new();
    while let Some(a) = r.next_input(&mut q) {
        let answer = input_response(a.0, a.1.clone(), None);
        assert!(finish_attempt(&mut o, &mut r, a, Some(answer)));
    }
    let mut d = Drain::new();
    d.finish(3);
    let mut order = Vec::new();
    while let Some((id, v)) = d.poll(&mut o) {
        assert!(matches!(v, Outcome::Failed(_)));
        order.push(id);
    }
    assert_eq!(order, vec![0, 1, 2]);
    assert!(d.is_done());
}

#[test]
fn input_response_carries_output_or_the_input() {
    assert_eq!(
        input_response(1, "in".into(), Some((2, "o".into(), "e".into()))),
        ResponseEvent::Output(1, 2, "o".into(), "e".into())
    );
    assert_eq!(input_response(1, "in".into(), None), ResponseEvent::Error(1, "in".into()));
}

#[test]
fn registry_takes_the_lowest_vacant_handle() {
    let mut reg: Registry<u8> = Registry::new();
    let entry = |p: &str, s: u8| Registered { command: Tokens::new(p), slots: 2, state: s };
    assert_eq!(reg.register(entry("a", 0)), 0);
    assert_eq!(reg.register(entry("b", 1)), 1);
    assert_eq!(reg.register(entry("c", 2)), 2);
    assert_eq!(reg.remove(1).map(|r| r.state), Some(1));
    assert!(reg.get(1).is_none());
    assert_eq!(reg.register(entry("d", 3)), 1);
    assert_eq!(reg.get(1).map(|r| r.state), Some(3));
    assert_eq!(reg.listing(), "0: a {}\n1: d {}\n2: c {}");
}

#[test]
fn empty_registry_lists_nothing() {
    let mut reg: Registry<u8> = Registry::new();
    assert_eq!(reg.listing(), "no jobs available");
    let h = reg.register_command("echo {}", 9);
    assert_eq!(h, 0);
    assert!(reg.get(0).unwrap().slots >= 1);
    assert_eq!(reg.listing(), "0: echo {}");
    reg.remove(0);
    assert_eq!(reg.listing(), "no jobs available");
    assert!(reg.remove(7).is_none());
}

#[test]
fn slot_step_decisions() {
    let t = Tokens::new("echo {#}:{%}");
    let mut q = Inputs::new();
    assert!(matches!(slot_step(false, &mut q, &t, 0), SlotAction::Idle));
    q.push(2, "c".into());
    assert!(matches!(slot_step(true, &mut q, &t, 0), SlotAction::Park));
    assert_eq!(q.len(), 1);
    match slot_step(false, &mut q, &t, 1) {
        SlotAction::Run(jid, input, line) => {
            assert_eq!(jid, 2);
            assert_eq!(input, "c");
            assert_eq!(line, "echo 2:1 c");
        }
        _ => panic!("expected a job"),
    }
}

#[test]
fn input_lines() {
    assert_eq!(input_line("  a b \t"), Some("a b".to_string()));
    assert_eq!(input_line(""), None);
    assert_eq!(input_line("   "), None);
    assert_eq!(input_line("  # note"), None);
    assert_eq!(input_line("a#b"), Some("a#b".to_string()));
    let mut q = Inputs::new();
    let mut n = 0;
    for l in ["one", "", "# c", " two "] {
        read_line(&mut q, l, &mut n);
    }
    assert_eq!(n, 2);
    assert_eq!(q.pop(), Some((0, "one".to_string())));
    assert_eq!(q.pop(), Some((1, "two".to_string())));
}

#[test]
fn results_cache() {
    let mut c = ResultsCache::new();
    c.write_instruction(3, 14, "a b");
    assert_eq!(c.instruction, b"inp 3 14 a b\r\n".to_vec());
    c.read_from("14 2\n", "out\n", "err\r\n");
    assert_eq!(c.status, "14 2");
    assert_eq!(c.stdout, "out");
    assert_eq!(c.stderr, "err");
    assert_eq!(c.parse_status(), Ok((14, 2)));
    c.clear();
    assert_eq!(c.status, "");
    assert_eq!(c.parse_status(), Err(CodecError::NotEnoughArguments));
    c.read_from("1 300\n", "", "");
    assert_eq!(c.parse_status(), Err(CodecError::NotANumber));
}

#[test]
fn cores_answer_is_a_positive_number() {
    match concurr::service::cores_response() {
        ResponseEvent::Info(s) => assert!(s.parse::<usize>().unwrap() >= 1),
        other => panic!("{:?}", other),
    }
    assert_eq!(concurr::service::cores_info(12), ResponseEvent::Info("12".into()));
    assert_eq!(concurr::service::handle_response(0), ResponseEvent::Info("0".into()));
    assert_eq!(concurr::service::deleted_response(), ResponseEvent::Info("deleted job".into()));
    assert_eq!(concurr::service::not_found_response(), ResponseEvent::Info("not found".into()));
}

#[test]
fn transport_kill_scenario() {
    let mut q = Inputs::new();
    for i in 0..10 {
        q.push(i, format!("in{}", i));
    }
    let mut r = Retries::new();
    let mut o: Outputs<Outcome> = Outputs::new();
    let mut node_a_answered = false;
    let mut turn = 0;
    while let Some(a) = r.next_input(&mut q) {
        let on_node_a = turn % 2 == 0;
        turn += 1;
        let answer = if on_node_a && node_a_answered {
            None
        } else {
            node_a_answered |= on_node_a;
            Some(ResponseEvent::Output(a.0, 0, a.1.clone(), String::new()))
        };
        finish_attempt(&mut o, &mut r, a, answer);
    }
    let mut d = Drain::new();
    d.finish(10);
    let mut order = Vec::new();
    while let Some((id, v)) = d.poll(&mut o) {
        assert_eq!(v, Outcome::Completed(0, format!("in{}", id), String::new()));
        order.push(id);
    }
    assert_eq!(order, (0..10).collect::<Vec<_>>());
    assert!(d.is_done());
}
