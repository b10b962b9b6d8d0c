use dozer_app::ssh::{
    keyring_account_name, parse_os_release, pick_retry_message, AuthMethod, Message, SshEffect,
    SshHost, SshTabKind, TestStatus, WorkspaceState,
};

fn host(id: &str) -> SshHost {
    SshHost {
        id: id.into(),
        name: format!("test-{id}"),
        host: "example.com".into(),
        port: 22,
        username: "deploy".into(),
        auth: AuthMethod::Password,
    }
}

#[test]
fn trust_host_key_reopens_terminal_only_when_ids_match() {
    let mut reopen = Some("A".to_string());
    assert!(matches!(
        pick_retry_message(&mut reopen, "A"),
        Message::OpenSshTab(_, SshTabKind::Terminal)
    ));
    assert_eq!(reopen, None);
    let mut reopen2 = Some("B".to_string());
    assert!(matches!(
        pick_retry_message(&mut reopen2, "A"),
        Message::TestConnection(_)
    ));
    assert_eq!(reopen2.as_deref(), Some("B"));
    assert!(matches!(
        pick_retry_message(&mut None, "A"),
        Message::TestConnection(_)
    ));
}

#[test]
fn keyring_account_joins_project_and_host_with_a_colon() {
    assert_eq!(keyring_account_name(7, "h1"), "7:h1");
    assert_eq!(keyring_account_name(-12, "abc"), "-12:abc");
    assert_eq!(keyring_account_name(0, ""), "0:");
}

#[test]
fn os_release_prefers_pretty_name() {
    let text = "NAME=\"Ubuntu\"\nPRETTY_NAME=\"Ubuntu 22.04.3 LTS\"\nID=ubuntu\n";
    assert_eq!(parse_os_release(text), Ok("Ubuntu 22.04.3 LTS".to_string()));
}

#[test]
fn os_release_falls_back_to_name_and_version() {
    let text = "ID=alpine\nNAME=\"Alpine Linux\"\nVERSION=3.19\n";
    assert_eq!(parse_os_release(text), Ok("Alpine Linux 3.19".to_string()));
}

#[test]
fn os_release_without_names_is_an_error() {
    assert!(parse_os_release("ID=unknown\n").is_err());
    assert!(parse_os_release("NAME=Alpine Linux\n").is_err());
    assert!(parse_os_release("PRETTY_NAME=\"\"\nNAME=A\n").is_err());
    assert!(parse_os_release("").is_err());
}

#[test]
fn new_host_gets_a_v4_uuid_and_is_saved() {
    let mut ws = WorkspaceState::new();
    ws.update(Message::AddHostStart, 3);
    ws.update(Message::DraftNameChanged("box".into()), 3);
    ws.update(Message::DraftHostChanged("  10.0.0.2 ".into()), 3);
    ws.update(Message::DraftPortChanged("2222".into()), 3);
    ws.update(Message::DraftUsernameChanged(" root ".into()), 3);
    ws.update(Message::DraftPasswordChanged("pw".into()), 3);
    let effects = ws.update(Message::DraftSave, 3);
    assert_eq!(ws.hosts().len(), 1);
    let h = &ws.hosts()[0];
    assert_eq!(h.id.len(), 36);
    assert_eq!(h.id.chars().nth(14), Some('4'));
    assert_eq!(h.host, "10.0.0.2");
    assert_eq!(h.port, 2222);
    assert_eq!(h.username, "root");
    assert_eq!(h.auth, AuthMethod::Password);
    assert!(ws.editing().is_none());
    assert_eq!(
        effects,
        vec![
            SshEffect::SetPassword { account: format!("3:{}", h.id), password: "pw".into() },
            SshEffect::SaveHosts(vec![h.clone()]),
        ]
    );
}

#[test]
fn saving_with_unreadable_port_uses_22_and_blank_name_is_refused() {
    let mut ws = WorkspaceState::new();
    ws.update(Message::AddHostStart, 1);
    ws.update(Message::DraftHostChanged("h".into()), 1);
    assert!(ws.update(Message::DraftSave, 1).is_empty());
    assert!(ws.hosts().is_empty());
    ws.update(Message::DraftNameChanged("n".into()), 1);
    ws.update(Message::DraftPortChanged("99999".into()), 1);
    ws.update(Message::DraftSave, 1);
    assert_eq!(ws.hosts()[0].port, 22);
}

#[test]
fn editing_a_host_replaces_it_in_place() {
    let mut ws = WorkspaceState::with_hosts(vec![host("a"), host("b")]);
    ws.update(Message::EditHostStart("b".into()), 1);
    assert_eq!(ws.editing().unwrap().port, "22");
    ws.update(Message::DraftAuthMethodToggled(true), 1);
    ws.update(Message::DraftKeyPathChanged(" ~/.ssh/id ".into()), 1);
    let effects = ws.update(Message::DraftSave, 1);
    assert_eq!(ws.hosts().len(), 2);
    assert_eq!(ws.hosts()[1].id, "b");
    assert_eq!(ws.hosts()[1].auth, AuthMethod::PrivateKey { key_path: "~/.ssh/id".into() });
    assert_eq!(effects, vec![SshEffect::SaveHosts(ws.hosts().to_vec())]);
}

#[test]
fn delete_forgets_host_and_its_secret() {
    let mut ws = WorkspaceState::with_hosts(vec![host("a"), host("b")]);
    let effects = ws.update(Message::DeleteHost("a".into()), 5);
    assert_eq!(ws.hosts(), &[host("b")]);
    assert_eq!(
        effects,
        vec![
            SshEffect::DeleteCredential { account: "5:a".into() },
            SshEffect::SaveHosts(vec![host("b")]),
        ]
    );
}

#[test]
fn late_failure_does_not_hide_a_key_problem() {
    let mut ws = WorkspaceState::with_hosts(vec![host("a")]);
    let effects = ws.update(Message::TestConnection("a".into()), 1);
    assert_eq!(ws.test_status("a"), TestStatus::Testing);
    assert_eq!(effects, vec![SshEffect::StartTest { host: host("a"), account: "1:a".into() }]);
    ws.update(Message::UnknownKeyDetected(1, "a".into(), "SHA256:x".into(), vec![1, 2]), 1);
    ws.update(Message::TestConnectionResult(1, "a".into(), Err("boom".into())), 1);
    assert_eq!(ws.test_status("a"), TestStatus::UnknownHostKey { fingerprint: "SHA256:x".into() });
    ws.update(Message::TestConnectionResult(1, "a".into(), Ok(())), 1);
    assert_eq!(ws.test_status("a"), TestStatus::Passed);
    ws.update(Message::TestConnectionResult(1, "a".into(), Err("boom".into())), 1);
    assert_eq!(ws.test_status("a"), TestStatus::Failed("boom".into()));
}

#[test]
fn trusting_a_key_learns_it_then_retests() {
    let mut ws = WorkspaceState::with_hosts(vec![host("a")]);
    ws.update(Message::UnknownKeyDetected(1, "a".into(), "fp".into(), vec![9]), 1);
    let effects = ws.update(Message::TrustHostKey("a".into()), 1);
    assert_eq!(
        effects,
        vec![
            SshEffect::LearnHostKey { host: "example.com".into(), port: 22, key: vec![9] },
            SshEffect::StartTest { host: host("a"), account: "1:a".into() },
        ]
    );
    assert!(ws.update(Message::TrustHostKey("a".into()), 1).is_empty());
}

#[test]
fn trusting_a_key_reopens_the_terminal_that_hit_it() {
    let mut ws = WorkspaceState::with_hosts(vec![host("a")]);
    ws.record_reopen_after_trust("a".into());
    ws.update(Message::UnknownKeyDetected(1, "a".into(), "fp".into(), vec![9]), 1);
    let effects = ws.update(Message::TrustHostKey("a".into()), 1);
    assert_eq!(
        effects,
        vec![
            SshEffect::LearnHostKey { host: "example.com".into(), port: 22, key: vec![9] },
            SshEffect::OpenTerminal("a".into()),
        ]
    );
}

#[test]
fn os_result_kept_only_on_success() {
    let mut ws = WorkspaceState::with_hosts(vec![host("a")]);
    ws.update(Message::FetchOsResult(1, "a".into(), Err("x".into())), 1);
    assert_eq!(ws.os_info("a"), None);
    ws.update(Message::FetchOsResult(1, "a".into(), Ok("Debian".into())), 1);
    assert_eq!(ws.os_info("a"), Some("Debian"));
}

#[test]
fn two_new_hosts_get_different_ids_and_both_stay() {
    let mut ws = WorkspaceState::new();
    for name in ["one", "two"] {
        ws.update(Message::AddHostStart, 1);
        ws.update(Message::DraftNameChanged(name.into()), 1);
        ws.update(Message::DraftHostChanged("10.0.0.9".into()), 1);
        ws.update(Message::DraftSave, 1);
    }
    assert_eq!(ws.hosts().len(), 2);
    assert_ne!(ws.hosts()[0].id, ws.hosts()[1].id);
    assert_eq!(ws.hosts()[0].name, "one");
    assert_eq!(ws.hosts()[1].name, "two");
}
