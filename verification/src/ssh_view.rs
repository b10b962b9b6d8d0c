//! What the host panel shows of a host: the card's title, address line and
//! buttons, and the host editor's optional fields, buttons and the line that
//! reports a connection test.
use vstd::prelude::*;
use crate::ssh::{host_index, SshHost, SshHostDraft, TestStatus, WorkspaceState};
use crate::text::{chars_of, decimal, decimal_string, str_eq, string_of};

verus! {

/// The line under the host editor that reports a connection test (empty
/// while no test ran).
pub open spec fn status_line(s: TestStatus) -> Seq<char> {
    match s {
        TestStatus::Idle => Seq::empty(),
        TestStatus::Testing => "测试中…"@,
        TestStatus::Passed => "✓ 连接成功"@,
        TestStatus::UnknownHostKey { fingerprint } => "⚠ 未知主机,指纹 "@ + fingerprint@,
        TestStatus::KeyChanged { fingerprint } => "✗ 主机指纹已变化("@ + fingerprint@ + "),拒绝连接"@,
        TestStatus::Failed(e) => "✗ "@ + e@,
    }
}

/// Appends the characters of `t` to `cs`.
fn append_str(cs: &mut Vec<char>, t: &str)
    ensures
        final(cs)@ == old(cs)@ + t@,
{
    let mut ts = chars_of(t);
    cs.append(&mut ts);
}

/// The test report line of the host editor.
pub fn test_status_line(s: &TestStatus) -> (r: String)
    ensures
        r@ == status_line(*s),
{
    match s {
        TestStatus::Idle => String::new(),
        TestStatus::Testing => "测试中…".to_owned(),
        TestStatus::Passed => "✓ 连接成功".to_owned(),
        TestStatus::UnknownHostKey { fingerprint } => {
            let mut cs = chars_of("⚠ 未知主机,指纹 ");
            append_str(&mut cs, fingerprint.as_str());
            string_of(&cs)
        },
        TestStatus::KeyChanged { fingerprint } => {
            let mut cs = chars_of("✗ 主机指纹已变化(");
            append_str(&mut cs, fingerprint.as_str());
            append_str(&mut cs, "),拒绝连接");
            string_of(&cs)
        },
        TestStatus::Failed(e) => {
            let mut cs = chars_of("✗ ");
            append_str(&mut cs, e.as_str());
            string_of(&cs)
        },
    }
}

/// The title of a host card: the host's name, followed by the system read
/// from it in parentheses once it has logged in.
pub open spec fn card_title(h: SshHost, os: Option<Seq<char>>) -> Seq<char> {
    match os {
        Some(o) => h.name@ + " ("@ + o + ")"@,
        None => h.name@,
    }
}

/// The connection line of a host card: `user@host:port`.
pub open spec fn card_address(h: SshHost) -> Seq<char> {
    h.username@ + seq!['@'] + h.host@ + seq![':'] + decimal(h.port as nat)
}

/// What a host card shows: its title and connection line, which of its icon
/// buttons (0 file transfer, 1 terminal, 2 settings, 3 delete) is under the
/// pointer, and whether it offers to trust an unknown host key.
#[derive(Debug, PartialEq)]
pub struct HostCardFacts {
    pub title: String,
    pub address: String,
    pub hovered_button: Option<u8>,
    pub offer_trust: bool,
}

/// The facts of the card of host `h`, in test state `status`, with the icon
/// button `hover` under the pointer (host id and button) and `os` the system
/// read from the host.
pub fn host_card_facts(h: &SshHost, status: &TestStatus, hover: &Option<(String, u8)>, os: Option<&str>) -> (r: HostCardFacts)
    ensures
        r.title@ == card_title(*h, match os { Some(o) => Some(o@), None => None }),
        r.address@ == card_address(*h),
        r.hovered_button == match *hover {
            Some((id, i)) => if id@ == h.id@ { Some(i) } else { None },
            None => None,
        },
        r.offer_trust == (*status is UnknownHostKey),
{
    let mut t = chars_of(h.name.as_str());
    match os {
        Some(o) => {
            append_str(&mut t, " (");
            append_str(&mut t, o);
            append_str(&mut t, ")");
        },
        None => {},
    }
    let mut a = chars_of(h.username.as_str());
    a.push('@');
    append_str(&mut a, h.host.as_str());
    a.push(':');
    let port = decimal_string(h.port as u64);
    append_str(&mut a, port.as_str());
    assert(a@ =~= card_address(*h));
    let hovered_button = match hover {
        Some((id, i)) => if str_eq(id.as_str(), h.id.as_str()) { Some(*i) } else { None },
        None => None,
    };
    let offer_trust = match status {
        TestStatus::UnknownHostKey { .. } => true,
        _ => false,
    };
    HostCardFacts { title: string_of(&t), address: string_of(&a), hovered_button, offer_trust }
}

/// What the host editor shows: the key path field (instead of the password
/// alone) when the host logs in with a key, the host a connection test is
/// asked for (empty for a host not saved yet), whether it offers deletion
/// (only for a saved host), the test report line, and whether it offers to
/// trust an unknown host key (only for a saved host).
#[derive(Debug, PartialEq)]
pub struct HostFormFacts {
    pub key_path_field: bool,
    pub test_target: String,
    pub offer_delete: bool,
    pub status_line: String,
    pub offer_trust: bool,
}

/// The facts of the host editor on draft `d` in test state `status`.
pub fn host_form_facts(d: &SshHostDraft, status: &TestStatus) -> (r: HostFormFacts)
    ensures
        r.key_path_field == d.use_private_key,
        r.test_target@ == match d.id {
            Some(i) => i@,
            None => Seq::empty(),
        },
        r.offer_delete == (d.id is Some),
        r.status_line@ == status_line(*status),
        r.offer_trust == (*status is UnknownHostKey && d.id is Some),
{
    let test_target = match &d.id {
        Some(i) => i.clone(),
        None => String::new(),
    };
    let unknown = match status {
        TestStatus::UnknownHostKey { .. } => true,
        _ => false,
    };
    HostFormFacts {
        key_path_field: d.use_private_key,
        test_target,
        offer_delete: d.id.is_some(),
        status_line: test_status_line(status),
        offer_trust: unknown && d.id.is_some(),
    }
}


/// The test state the host editor reports for the draft of host `draft_id`:
/// that host's state, `Idle` for a host not saved yet.
pub fn editor_status(ws: &WorkspaceState, draft_id: Option<&str>) -> (r: TestStatus)
    ensures
        r == match draft_id {
            Some(id) => if ws@.test_status.contains_key(id@) { ws@.test_status[id@] } else { TestStatus::Idle },
            None => TestStatus::Idle,
        },
{
    match draft_id {
        Some(id) => ws.test_status(id),
        None => TestStatus::Idle,
    }
}

/// The name the delete confirmation asks about: that of the first host with
/// id `host_id`, the id itself when no host has it.
pub fn delete_prompt_name(ws: &WorkspaceState, host_id: &str) -> (r: String)
    ensures
        r@ == match host_index(ws@.hosts, host_id@) {
            Some(i) => ws@.hosts[i].name@,
            None => host_id@,
        },
{
    let hosts = ws.hosts();
    let ghost hs = ws@.hosts;
    let mut i: usize = 0;
    assert(hs.skip(0) =~= hs);
    while i < hosts.len()
        invariant
            hosts@ == hs,
            hs == ws@.hosts,
            i <= hs.len(),
            host_index(hs, host_id@) == match host_index(hs.skip(i as int), host_id@) {
                Some(k) => Some(k + i),
                None => None,
            },
        decreases hs.len() - i,
    {
        assert(hs.skip(i as int).drop_first() =~= hs.skip(i + 1));
        if str_eq(hosts[i].id.as_str(), host_id) {
            assert(hs.skip(i as int)[0] == hs[i as int]);
            assert(host_index(hs.skip(i as int), host_id@) == Some(0int));
            return hosts[i].name.clone();
        }
        i = i + 1;
    }
    assert(hs.skip(i as int).len() == 0);
    host_id.to_owned()
}


/// The texts of the session record a host's terminal tab is listed under:
/// its id `ssh:<host id>`, its name `ssh: <host name>` and the command line
/// `ssh <user>@<address>:<port>`.
#[derive(Debug, PartialEq)]
pub struct SessionLabels {
    pub id: String,
    pub name: String,
    pub command: String,
}

/// The session texts of host `h`.
pub fn session_labels(h: &SshHost) -> (r: SessionLabels)
    ensures
        r.id@ == "ssh:"@ + h.id@,
        r.name@ == "ssh: "@ + h.name@,
        r.command@ == "ssh "@ + card_address(*h),
{
    let mut id = chars_of("ssh:");
    append_str(&mut id, h.id.as_str());
    let mut name = chars_of("ssh: ");
    append_str(&mut name, h.name.as_str());
    let mut command = chars_of("ssh ");
    append_str(&mut command, h.username.as_str());
    command.push('@');
    append_str(&mut command, h.host.as_str());
    command.push(':');
    let port = decimal_string(h.port as u64);
    append_str(&mut command, port.as_str());
    assert(command@ =~= "ssh "@ + card_address(*h));
    SessionLabels { id: string_of(&id), name: string_of(&name), command: string_of(&command) }
}

} // verus!
