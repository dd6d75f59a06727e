use tide::process_manager::{shell_invocation, Launch, Platform, ProcessManager, StreamLabel, TaggedLine, GRACE_MS};

fn cmds(items: &[&str]) -> Vec<String> {
    items.iter().map(|s| s.to_string()).collect()
}

fn unix(cmd: &str) -> Launch {
    Launch { program: "sh".to_string(), args: vec!["-c".to_string(), cmd.to_string()] }
}

#[test]
fn shell_per_platform() {
    assert_eq!(shell_invocation(Platform::Unix, &"echo hi | wc -c".to_string()), unix("echo hi | wc -c"));
    assert_eq!(
        shell_invocation(Platform::Windows, &"dir".to_string()),
        Launch { program: "cmd".to_string(), args: vec!["/C".to_string(), "dir".to_string()] }
    );
}

#[test]
fn terminating_an_empty_set_does_nothing() {
    let mut pm: ProcessManager<u32> = ProcessManager::new(Platform::Unix);
    let shutdown = pm.kill_all();
    assert!(shutdown.is_empty());
    assert_eq!(shutdown.grace_ms(), 0);
    assert_eq!(pm.len(), 0);
    assert!(pm.next_launch().is_none());
}

#[test]
fn replace_twice_leaves_only_the_second_set() {
    let mut pm: ProcessManager<u32> = ProcessManager::new(Platform::Unix);

    let first = pm.spawn_cmds(&cmds(&["sleep 5"]));
    assert!(first.is_empty());
    pm.terminated();
    assert_eq!(pm.next_launch(), Some(unix("sleep 5")));
    pm.started(1);
    assert!(pm.next_launch().is_none());
    assert_eq!(pm.len(), 1);

    let second = pm.spawn_cmds(&cmds(&["echo hi"]));
    assert!(!second.is_empty());
    assert_eq!(second.grace_ms(), GRACE_MS);
    assert_eq!(second.grace_ms(), 1000);
    assert_eq!(second.victims.len(), 1);
    assert_eq!(second.victims[0].cmd, "sleep 5");
    assert_eq!(second.victims[0].handle, 1);
    // nothing of the new set starts before the old one is reported gone
    assert_eq!(pm.len(), 0);
    assert!(pm.next_launch().is_none());
    pm.terminated();
    assert_eq!(pm.next_launch(), Some(unix("echo hi")));
    pm.started(2);
    assert_eq!(pm.len(), 1);

    let last = pm.kill_all();
    assert_eq!(last.victims.len(), 1);
    assert_eq!(last.victims[0].cmd, "echo hi");
    assert_eq!(last.victims[0].handle, 2);
    assert_eq!(pm.len(), 0);
}

#[test]
fn commands_start_in_order() {
    let mut pm: ProcessManager<u32> = ProcessManager::new(Platform::Unix);
    let shutdown = pm.spawn_cmds(&cmds(&["a", "b", "c"]));
    assert!(shutdown.is_empty());
    pm.terminated();
    let mut n = 0;
    while let Some(launch) = pm.next_launch() {
        assert_eq!(launch.args[1], ["a", "b", "c"][n]);
        pm.started(n as u32);
        n += 1;
    }
    assert_eq!(n, 3);
    let all = pm.kill_all();
    let order: Vec<&str> = all.victims.iter().map(|p| p.cmd.as_str()).collect();
    assert_eq!(order, vec!["a", "b", "c"]);
}

#[test]
fn every_output_line_is_tagged() {
    let label = StreamLabel::new(&"cargo run".to_string());
    for text in ["Compiling", "Finished", "Running"] {
        assert_eq!(
            label.tag(text.to_string()),
            TaggedLine { tag: "cargo run".to_string(), text: text.to_string() }
        );
    }
}

#[test]
fn interrupted_shutdown_still_owes_the_grace_period() {
    let mut pm: ProcessManager<u32> = ProcessManager::new(Platform::Unix);
    pm.spawn_cmds(&cmds(&["server"]));
    pm.terminated();
    pm.started(7);
    // the replacement is cut short: its shutdown is never reported done
    let cut = pm.spawn_cmds(&cmds(&["server --reload"]));
    assert_eq!(cut.victims.len(), 1);
    assert!(!cut.unsettled);
    let last = pm.kill_all();
    assert!(last.victims.is_empty());
    assert!(last.unsettled);
    assert!(!last.is_empty());
    assert_eq!(last.grace_ms(), GRACE_MS);
    pm.terminated();
    let again = pm.kill_all();
    assert!(again.is_empty());
    assert_eq!(again.grace_ms(), 0);
}
