use smugprobe::dispatch::plan_probes;
use smugprobe::dispatch::judge_probe;
use smugprobe::dispatch::ProbeEvent;
use smugprobe::dispatch::ProbeOutcome;

#[test]
fn plan_launches_repeat_times_mutation_set() {
    let plan = plan_probes(
        &"POST".to_string(),
        &"victim.test".to_string(),
        &"/".to_string(),
        10,
    );
    assert_eq!(plan.len(), 10 * 2);
    for (k, m) in plan.iter().enumerate() {
        if k % 2 == 0 {
            assert_eq!(m.name, "CL.TE");
        } else {
            assert_eq!(m.name, "TE.CL");
        }
    }
}

#[test]
fn plan_for_zero_repeats_is_empty() {
    let plan = plan_probes(
        &"POST".to_string(),
        &"victim.test".to_string(),
        &"/".to_string(),
        0,
    );
    assert!(plan.is_empty());
}

#[test]
fn timeout_is_a_positive_signal() {
    assert!(matches!(judge_probe(ProbeEvent::TimedOut), ProbeOutcome::TimeoutSignal));
}

#[test]
fn transport_failures_decide_nothing() {
    assert!(matches!(judge_probe(ProbeEvent::ReadFailed), ProbeOutcome::SoftFailure));
    assert!(matches!(judge_probe(ProbeEvent::ConnectFailed), ProbeOutcome::SoftFailure));
}

#[test]
fn suspicious_response_bytes_become_a_finding() {
    let outcome = judge_probe(ProbeEvent::ResponseBytes(
        b"HTTP/1.1 502 Bad Gateway\r\n\r\n".to_vec(),
    ));
    match outcome {
        ProbeOutcome::Finding(reasons) => {
            assert_eq!(reasons.len(), 1);
            assert!(reasons[0].contains("502"));
        }
        _ => panic!("expected a finding"),
    }
}

#[test]
fn clean_response_bytes_stay_clean() {
    let outcome = judge_probe(ProbeEvent::ResponseBytes(
        b"HTTP/1.1 200 OK\r\nContent-Length: 2\r\n\r\nok".to_vec(),
    ));
    assert!(matches!(outcome, ProbeOutcome::Clean));
}
