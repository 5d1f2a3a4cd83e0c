use runner::kill::{kill_process, process_gone, KillAction, Signal, ATTEMPTS};

fn told(actions: &[KillAction]) -> Vec<String> {
    actions
        .iter()
        .map(|action| match action {
            KillAction::Ps { arguments } => format!("ps {}", arguments.join(" ")),
            KillAction::Send { pid, signal } => format!("{:?} {}", signal, pid),
            KillAction::Pause { millis } => format!("pause {}", millis),
        })
        .collect()
}

/// All that is done about a process that is found `times` times.
fn get_rid_of(pid: i32, times: usize) -> Vec<String> {
    let (start, actions) = kill_process(pid);
    let mut done = told(&actions);
    let mut killer = Some(start);
    let mut found = 0;
    while let Some(current) = killer {
        let (next, actions) = current.next(found < times);
        found += 1;
        done.extend(told(&actions));
        killer = next;
    }
    done
}

#[test]
fn gone_processes_are_left_alone() {
    assert_eq!(get_rid_of(42, 0), vec!["ps -p 42"]);
    assert!(process_gone(false));
    assert!(!process_gone(true));
}

#[test]
fn processes_are_interrupted_until_they_are_gone() {
    assert_eq!(
        get_rid_of(42, 2),
        vec![
            "ps -p 42",
            "Interrupt 42",
            "pause 0",
            "ps -p 42",
            "Interrupt 42",
            "pause 200",
            "ps -p 42",
        ]
    );
}

#[test]
fn stubborn_processes_are_killed() {
    let done = get_rid_of(-7, 100);
    assert_eq!(done.iter().filter(|deed| *deed == "Interrupt -7").count() as u64, ATTEMPTS);
    assert_eq!(done.iter().filter(|deed| *deed == "ps -p -7").count() as u64, ATTEMPTS);
    assert_eq!(
        done.iter().filter(|deed| deed.starts_with("pause")).collect::<Vec<_>>(),
        vec!["pause 0", "pause 200", "pause 400", "pause 600", "pause 800"]
    );
    assert_eq!(done.last(), Some(&format!("{:?} -7", Signal::Kill)));
    assert_eq!(done.iter().filter(|deed| *deed == "Kill -7").count(), 1);
}

#[test]
fn every_pid_can_be_asked_for() {
    let (_, actions) = kill_process(i32::MIN);
    assert_eq!(told(&actions), vec![format!("ps -p {}", i32::MIN)]);
}
