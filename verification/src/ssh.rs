//! The SSH host panel: configured hosts, the host editor, connection test
//! states, host keys waiting to be trusted, and what each message asks the
//! caller to do (save the host list, store or forget a secret, start a test,
//! record a host key, open a terminal). Also the parsing of
//! `/etc/os-release` into the system name shown on a host card.
use vstd::prelude::*;
use crate::kv::{lookup, kv_get, kv_put, kv_remove};
use crate::calendar::{first_index, lemma_first_index, lemma_first_index_range};
use crate::text::{
    chars_of, decimal, decimal_string, parse_unsigned, parse_unsigned_chars, signed_decimal, signed_decimal_string, str_eq,
    string_of, trim, trim_str, trim_chars, trim_end_char, trim_end_char_chars, concat,
};

verus! {

/// The two kinds of tab a host can have open.
#[derive(Debug, Clone, Copy, PartialEq, Eq, Hash, Structural)]
pub enum SshTabKind {
    Terminal,
    Sftp,
}

/// How a host is logged into.
#[derive(Debug, PartialEq)]
pub enum AuthMethod {
    Password,
    PrivateKey { key_path: String },
}

impl Clone for AuthMethod {
    fn clone(&self) -> (r: Self)
        ensures
            r == *self,
    {
        match self {
            AuthMethod::Password => AuthMethod::Password,
            AuthMethod::PrivateKey { key_path } => AuthMethod::PrivateKey { key_path: key_path.clone() },
        }
    }
}

/// A configured host (no secret).
#[derive(Debug, PartialEq)]
pub struct SshHost {
    pub id: String,
    pub name: String,
    pub host: String,
    pub port: u16,
    pub username: String,
    pub auth: AuthMethod,
}

impl Clone for SshHost {
    fn clone(&self) -> (r: Self)
        ensures
            r == *self,
    {
        SshHost {
            id: self.id.clone(),
            name: self.name.clone(),
            host: self.host.clone(),
            port: self.port,
            username: self.username.clone(),
            auth: self.auth.clone(),
        }
    }
}

/// The connection test state shown on a host card (`Passed` and `Failed`
/// are the outcomes of a finished test).
#[derive(Debug, PartialEq)]
pub enum TestStatus {
    Idle,
    Testing,
    Passed,
    UnknownHostKey { fingerprint: String },
    KeyChanged { fingerprint: String },
    Failed(String),
}

impl Clone for TestStatus {
    fn clone(&self) -> (r: Self)
        ensures
            r == *self,
    {
        match self {
            TestStatus::Idle => TestStatus::Idle,
            TestStatus::Testing => TestStatus::Testing,
            TestStatus::Passed => TestStatus::Passed,
            TestStatus::UnknownHostKey { fingerprint } => TestStatus::UnknownHostKey { fingerprint: fingerprint.clone() },
            TestStatus::KeyChanged { fingerprint } => TestStatus::KeyChanged { fingerprint: fingerprint.clone() },
            TestStatus::Failed(e) => TestStatus::Failed(e.clone()),
        }
    }
}

/// The host editor's fields, as typed.
#[derive(Debug)]
pub struct SshHostDraft {
    pub id: Option<String>,
    pub name: String,
    pub host: String,
    pub port: String,
    pub username: String,
    pub use_private_key: bool,
    pub key_path: String,
    pub password: String,
}

impl SshHostDraft {
    /// An empty draft for a new host.
    pub fn new() -> (r: Self)
        ensures
            blank_draft(r),
    {
        SshHostDraft {
            id: None,
            name: String::new(),
            host: String::new(),
            port: String::new(),
            username: String::new(),
            use_private_key: false,
            key_path: String::new(),
            password: String::new(),
        }
    }
}

/// An empty draft for a new host.
pub open spec fn blank_draft(d: SshHostDraft) -> bool {
    &&& d.id is None
    &&& d.name@.len() == 0
    &&& d.host@.len() == 0
    &&& d.port@.len() == 0
    &&& d.username@.len() == 0
    &&& !d.use_private_key
    &&& d.key_path@.len() == 0
    &&& d.password@.len() == 0
}

/// The draft the editor opens with for host `h`: its fields, its port in
/// decimal, its key path when it logs in with a key, and no password.
pub open spec fn draft_of(d: SshHostDraft, h: SshHost) -> bool {
    &&& d.id matches Some(i) && i@ == h.id@
    &&& d.name@ == h.name@
    &&& d.host@ == h.host@
    &&& d.port@ == decimal(h.port as nat)
    &&& d.username@ == h.username@
    &&& d.use_private_key == (h.auth is PrivateKey)
    &&& d.key_path@ == match h.auth {
        AuthMethod::PrivateKey { key_path } => key_path@,
        AuthMethod::Password => Seq::empty(),
    }
    &&& d.password@.len() == 0
}

/// The name of the secret of host `host_id` of project `project_id` in the
/// system keychain: "`project_id`:`host_id`".
pub open spec fn keyring_account(project_id: i64, host_id: Seq<char>) -> Seq<char> {
    signed_decimal(project_id as int) + seq![':'] + host_id
}

/// The keychain account of a host's secret.
pub fn keyring_account_name(project_id: i64, host_id: &str) -> (r: String)
    ensures
        r@ == keyring_account(project_id, host_id@),
{
    let p = signed_decimal_string(project_id);
    let mut cs = chars_of(p.as_str());
    cs.push(':');
    let mut hs = chars_of(host_id);
    cs.append(&mut hs);
    let r = string_of(&cs);
    assert(r@ =~= keyring_account(project_id, host_id@));
    r
}

/// The shape of a version-4 UUID in its hyphenated lower-case text form.
pub open spec fn uuid_text(s: Seq<char>) -> bool {
    &&& s.len() == 36
    &&& s[8] == '-' && s[13] == '-' && s[18] == '-' && s[23] == '-'
    &&& s[14] == '4'
}

/// Calls `uuid::Uuid::new_v4().to_string()`: a random version-4 UUID in its
/// hyphenated lower-case form (36 characters, hyphens after the 8th, 12th,
/// 16th and 20th hex digit, version digit `4`). Which UUID comes back is
/// left open.
#[verifier::external_body]
fn new_host_id() -> (r: String)
    ensures
        uuid_text(r@),
{
    uuid::Uuid::new_v4().to_string()
}

/// The messages of the host panel. `Sftp` carries the messages of an SFTP
/// tab, which the caller routes to `crate::sftp::route`.
#[derive(Debug)]
pub enum Message {
    AddHostStart,
    EditHostStart(String),
    DraftNameChanged(String),
    DraftHostChanged(String),
    DraftPortChanged(String),
    DraftUsernameChanged(String),
    DraftAuthMethodToggled(bool),
    DraftKeyPathChanged(String),
    DraftPasswordChanged(String),
    DraftSave,
    DraftCancel,
    DeleteHostRequest(String),
    DeleteHostCancel,
    DeleteHost(String),
    TestConnection(String),
    TestConnectionResult(i64, String, Result<(), String>),
    UnknownKeyDetected(i64, String, String, Vec<u8>),
    KeyChanged(i64, String, String),
    TrustHostKey(String),
    OpenSshTab(String, SshTabKind),
    CloseSshTab(String, SshTabKind),
    SelectSshTab(String, SshTabKind),
    HoverAction(Option<(String, u8)>),
    TerminalConnectFailed(i64, String, usize, String),
    FetchOsResult(i64, String, Result<String, String>),
    Sftp(crate::sftp::Message),
}

/// What handling a message asks of the caller.
#[derive(Debug, PartialEq)]
pub enum SshEffect {
    /// Write the host list to the project's host file.
    SaveHosts(Vec<SshHost>),
    /// Store a secret under a keychain account.
    SetPassword { account: String, password: String },
    /// Forget the secret of a keychain account.
    DeleteCredential { account: String },
    /// Test a connection to `host`, with the secret stored under `account`.
    StartTest { host: SshHost, account: String },
    /// Record a host key as known for `host`:`port`.
    LearnHostKey { host: String, port: u16, key: Vec<u8> },
    /// Open the terminal tab of a host.
    OpenTerminal(String),
}

/// The host panel state of one workspace.
pub struct WorkspaceState {
    hosts: Vec<SshHost>,
    editing: Option<SshHostDraft>,
    test_status: Vec<(String, TestStatus)>,
    pending_unknown_keys: Vec<(String, Vec<u8>)>,
    reopen_after_trust: Option<String>,
    hover_action: Option<(String, u8)>,
    os_info: Vec<(String, String)>,
    delete_confirm: Option<String>,
}

/// The host panel by value.
pub struct SshView {
    pub hosts: Seq<SshHost>,
    pub editing: Option<SshHostDraft>,
    pub test_status: Map<Seq<char>, TestStatus>,
    pub pending_keys: Map<Seq<char>, Seq<u8>>,
    pub reopen_after_trust: Option<Seq<char>>,
    pub hover_action: Option<(Seq<char>, u8)>,
    pub os_info: Map<Seq<char>, Seq<char>>,
    pub delete_confirm: Option<Seq<char>>,
}

/// An optional string by value.
pub open spec fn opt_str(o: Option<String>) -> Option<Seq<char>> {
    match o {
        Some(s) => Some(s@),
        None => None,
    }
}

impl View for WorkspaceState {
    type V = SshView;

    closed spec fn view(&self) -> SshView {
        SshView {
            hosts: self.hosts@,
            editing: self.editing,
            test_status: Map::new(
                |k: Seq<char>| lookup(self.test_status@, k) is Some,
                |k: Seq<char>| lookup(self.test_status@, k).unwrap(),
            ),
            pending_keys: Map::new(
                |k: Seq<char>| lookup(self.pending_unknown_keys@, k) is Some,
                |k: Seq<char>| lookup(self.pending_unknown_keys@, k).unwrap()@,
            ),
            reopen_after_trust: opt_str(self.reopen_after_trust),
            hover_action: match self.hover_action {
                Some((h, i)) => Some((h@, i)),
                None => None,
            },
            os_info: Map::new(
                |k: Seq<char>| lookup(self.os_info@, k) is Some,
                |k: Seq<char>| lookup(self.os_info@, k).unwrap()@,
            ),
            delete_confirm: opt_str(self.delete_confirm),
        }
    }
}

/// An effect by value.
pub enum SshEffectView {
    SaveHosts(Seq<SshHost>),
    SetPassword { account: Seq<char>, password: Seq<char> },
    DeleteCredential { account: Seq<char> },
    StartTest { host: SshHost, account: Seq<char> },
    LearnHostKey { host: Seq<char>, port: u16, key: Seq<u8> },
    OpenTerminal(Seq<char>),
}

impl View for SshEffect {
    type V = SshEffectView;

    open spec fn view(&self) -> SshEffectView {
        match self {
            SshEffect::SaveHosts(h) => SshEffectView::SaveHosts(h@),
            SshEffect::SetPassword { account, password } => SshEffectView::SetPassword { account: account@, password: password@ },
            SshEffect::DeleteCredential { account } => SshEffectView::DeleteCredential { account: account@ },
            SshEffect::StartTest { host, account } => SshEffectView::StartTest { host: *host, account: account@ },
            SshEffect::LearnHostKey { host, port, key } => SshEffectView::LearnHostKey { host: host@, port: *port, key: key@ },
            SshEffect::OpenTerminal(h) => SshEffectView::OpenTerminal(h@),
        }
    }
}

/// Effects by value.
pub open spec fn ssh_effects_view(s: Seq<SshEffect>) -> Seq<SshEffectView> {
    s.map_values(|e: SshEffect| e@)
}

/// The index of the first host with id `id`.
pub open spec fn host_index(hosts: Seq<SshHost>, id: Seq<char>) -> Option<int>
    decreases hosts.len(),
{
    if hosts.len() == 0 {
        None
    } else if hosts[0].id@ == id {
        Some(0)
    } else {
        match host_index(hosts.drop_first(), id) {
            Some(i) => Some(i + 1),
            None => None,
        }
    }
}

/// The hosts without those of id `id`, in order.
pub open spec fn without_host(hosts: Seq<SshHost>, id: Seq<char>) -> Seq<SshHost>
    decreases hosts.len(),
{
    if hosts.len() == 0 {
        Seq::empty()
    } else {
        let rest = without_host(hosts.drop_last(), id);
        if hosts.last().id@ == id { rest } else { rest.push(hosts.last()) }
    }
}

/// A test state a late generic failure must not overwrite: the host key is
/// unknown or has changed.
pub open spec fn key_problem(s: Option<TestStatus>) -> bool {
    s matches Some(TestStatus::UnknownHostKey { .. }) || s matches Some(TestStatus::KeyChanged { .. })
}

/// The host a saved draft describes, with id `id`: trimmed address, user
/// name and key path; the port as typed when it reads as a port number, else
/// 22.
pub open spec fn host_of_draft(h: SshHost, d: SshHostDraft, id: Seq<char>) -> bool {
    &&& h.id@ == id
    &&& h.name@ == d.name@
    &&& h.host@ == trim(d.host@)
    &&& h.port as int == match parse_unsigned(d.port@, u16::MAX as int) {
        Some(v) => v,
        None => 22,
    }
    &&& h.username@ == trim(d.username@)
    &&& if d.use_private_key {
        h.auth matches AuthMethod::PrivateKey { key_path } && key_path@ == trim(d.key_path@)
    } else {
        h.auth is Password
    }
}

/// The host list after saving host `h`: it replaces the first host with the
/// same id, or is appended.
pub open spec fn hosts_after_save(hosts: Seq<SshHost>, h: SshHost) -> Seq<SshHost> {
    match host_index(hosts, h.id@) {
        Some(i) => hosts.update(i, h),
        None => hosts.push(h),
    }
}

/// The state and requests of starting a connection test of host `id`.
pub open spec fn test_started(p: SshView, id: Seq<char>, project_id: i64, p2: SshView, e: Seq<SshEffectView>) -> bool {
    match host_index(p.hosts, id) {
        None => p2 == p && e.len() == 0,
        Some(i) => {
            &&& p2 == SshView { test_status: p.test_status.insert(id, TestStatus::Testing), ..p }
            &&& e == seq![SshEffectView::StartTest { host: p.hosts[i], account: keyring_account(project_id, id) }]
        },
    }
}

/// The draft with one field changed, when a draft is open.
pub open spec fn draft_changed(p: SshView, p2: SshView, f: spec_fn(SshHostDraft, SshHostDraft) -> bool) -> bool {
    match p.editing {
        None => p2 == p,
        Some(d) => p2 == SshView { editing: p2.editing, ..p } && (p2.editing matches Some(d2) && f(d, d2)),
    }
}

/// What saving the draft does, with `fresh_id` the id a new host gets:
/// nothing without an open draft or when its name or address is blank;
/// otherwise the draft closes, the host it describes replaces the host of
/// the same id or is appended, its password (if typed) is stored, and the
/// host list is saved.
pub open spec fn draft_saved(p: SshView, project_id: i64, fresh_id: Seq<char>, p2: SshView, e: Seq<SshEffectView>) -> bool {
    match p.editing {
        None => p2 == p && e.len() == 0,
        Some(d) => if trim(d.name@).len() == 0 || trim(d.host@).len() == 0 {
            p2 == p && e.len() == 0
        } else {
            let id = match d.id {
                Some(i) => i@,
                None => fresh_id,
            };
            let saved = match host_index(p.hosts, id) {
                Some(i) => p2.hosts[i],
                None => p2.hosts.last(),
            };
            &&& host_of_draft(saved, d, id)
            &&& p2 == SshView { editing: None, hosts: hosts_after_save(p.hosts, saved), ..p }
            &&& e == (if d.password@.len() > 0 {
                seq![SshEffectView::SetPassword { account: keyring_account(project_id, id), password: d.password@ }]
            } else {
                Seq::empty()
            }).push(SshEffectView::SaveHosts(p2.hosts))
        },
    }
}

/// Whether handling `msg` saves a draft of a host not saved yet, which then
/// gets a new id.
pub open spec fn needs_fresh_id(p: SshView, msg: Message) -> bool {
    msg is DraftSave && (p.editing matches Some(d) && d.id is None)
}

/// What handling `msg` for project `project_id` does, with `fresh_id` the id
/// a new host gets: the panel goes from `p` to `p2` and the caller is asked
/// for `e`.
pub open spec fn ssh_transition(p: SshView, msg: Message, project_id: i64, fresh_id: Seq<char>, p2: SshView, e: Seq<SshEffectView>) -> bool {
    match msg {
        Message::AddHostStart => e.len() == 0 && p2 == SshView { editing: p2.editing, ..p } && (p2.editing matches Some(d)
            && blank_draft(d)),
        Message::HoverAction(v) => e.len() == 0 && p2 == SshView {
            hover_action: match v {
                Some((h, i)) => Some((h@, i)),
                None => None,
            },
            ..p
        },
        Message::EditHostStart(id) => e.len() == 0 && match host_index(p.hosts, id@) {
            None => p2 == p,
            Some(i) => p2 == SshView { editing: p2.editing, ..p } && (p2.editing matches Some(d) && draft_of(d, p.hosts[i])),
        },
        Message::DraftNameChanged(v) => e.len() == 0 && draft_changed(p, p2, |d: SshHostDraft, d2: SshHostDraft| d2 == SshHostDraft { name: v, ..d }),
        Message::DraftHostChanged(v) => e.len() == 0 && draft_changed(p, p2, |d: SshHostDraft, d2: SshHostDraft| d2 == SshHostDraft { host: v, ..d }),
        Message::DraftPortChanged(v) => e.len() == 0 && draft_changed(p, p2, |d: SshHostDraft, d2: SshHostDraft| d2 == SshHostDraft { port: v, ..d }),
        Message::DraftUsernameChanged(v) => e.len() == 0 && draft_changed(p, p2, |d: SshHostDraft, d2: SshHostDraft| d2 == SshHostDraft { username: v, ..d }),
        Message::DraftAuthMethodToggled(v) => e.len() == 0 && draft_changed(p, p2, |d: SshHostDraft, d2: SshHostDraft| d2 == SshHostDraft { use_private_key: v, ..d }),
        Message::DraftKeyPathChanged(v) => e.len() == 0 && draft_changed(p, p2, |d: SshHostDraft, d2: SshHostDraft| d2 == SshHostDraft { key_path: v, ..d }),
        Message::DraftPasswordChanged(v) => e.len() == 0 && draft_changed(p, p2, |d: SshHostDraft, d2: SshHostDraft| d2 == SshHostDraft { password: v, ..d }),
        Message::DraftSave => draft_saved(p, project_id, fresh_id, p2, e),
        Message::DraftCancel => e.len() == 0 && p2 == SshView { editing: None, ..p },
        Message::DeleteHostRequest(id) => e.len() == 0 && p2 == SshView { delete_confirm: Some(id@), ..p },
        Message::DeleteHostCancel => e.len() == 0 && p2 == SshView { delete_confirm: None, ..p },
        Message::DeleteHost(id) => {
            &&& p2 == SshView {
                hosts: without_host(p.hosts, id@),
                test_status: p.test_status.remove(id@),
                pending_keys: p.pending_keys.remove(id@),
                delete_confirm: if p.delete_confirm == Some(id@) { None } else { p.delete_confirm },
                ..p
            }
            &&& e == seq![
                SshEffectView::DeleteCredential { account: keyring_account(project_id, id@) },
                SshEffectView::SaveHosts(without_host(p.hosts, id@)),
            ]
        },
        Message::TestConnection(id) => test_started(p, id@, project_id, p2, e),
        Message::TestConnectionResult(_, id, result) => e.len() == 0 && match result {
            Ok(()) => p2 == SshView { test_status: p.test_status.insert(id@, TestStatus::Passed), ..p },
            Err(err) => if key_problem(if p.test_status.contains_key(id@) { Some(p.test_status[id@]) } else { None }) {
                p2 == p
            } else {
                p2 == SshView { test_status: p.test_status.insert(id@, TestStatus::Failed(err)), ..p }
            },
        },
        Message::UnknownKeyDetected(_, id, fp, bytes) => e.len() == 0 && p2 == SshView {
            test_status: p.test_status.insert(id@, TestStatus::UnknownHostKey { fingerprint: fp }),
            pending_keys: p.pending_keys.insert(id@, bytes@),
            ..p
        },
        Message::KeyChanged(_, id, fp) => e.len() == 0 && p2 == SshView {
            test_status: p.test_status.insert(id@, TestStatus::KeyChanged { fingerprint: fp }),
            ..p
        },
        Message::TrustHostKey(id) => if !p.pending_keys.contains_key(id@) {
            p2 == p && e.len() == 0
        } else {
            let q = SshView { pending_keys: p.pending_keys.remove(id@), ..p };
            match host_index(p.hosts, id@) {
                None => p2 == q && e.len() == 0,
                Some(i) => {
                    let learn = SshEffectView::LearnHostKey { host: p.hosts[i].host@, port: p.hosts[i].port, key: p.pending_keys[id@] };
                    if p.reopen_after_trust == Some(id@) {
                        p2 == SshView { reopen_after_trust: None, ..q } && e == seq![learn, SshEffectView::OpenTerminal(id@)]
                    } else {
                        e.len() == 2 && e[0] == learn && test_started(q, id@, project_id, p2, e.drop_first())
                    }
                },
            }
        },
        Message::OpenSshTab(_, _) => p2 == p && e.len() == 0,
        Message::CloseSshTab(_, _) => p2 == p && e.len() == 0,
        Message::SelectSshTab(_, _) => p2 == p && e.len() == 0,
        Message::Sftp(_) => p2 == p && e.len() == 0,
        Message::TerminalConnectFailed(_, id, _, err) => e.len() == 0 && if key_problem(
            if p.test_status.contains_key(id@) { Some(p.test_status[id@]) } else { None },
        ) {
            p2 == p
        } else {
            p2 == SshView { test_status: p.test_status.insert(id@, TestStatus::Failed(err)), ..p }
        },
        Message::FetchOsResult(_, id, result) => e.len() == 0 && match result {
            Ok(os) => p2 == SshView { os_info: p.os_info.insert(id@, os@), ..p },
            Err(_) => p2 == p,
        },
    }
}

/// `pick_retry_message`: after a host key is trusted, reopen the terminal
/// when it was the terminal of that host that ran into the unknown key
/// (clearing that record), else test the connection again.
pub fn pick_retry_message(reopen: &mut Option<String>, id: &str) -> (r: Message)
    ensures
        if opt_str(*old(reopen)) == Some(id@) {
            &&& *final(reopen) == None::<String>
            &&& r matches Message::OpenSshTab(h, SshTabKind::Terminal) && h@ == id@
        } else {
            &&& *final(reopen) == *old(reopen)
            &&& r matches Message::TestConnection(h) && h@ == id@
        },
{
    let hit = match reopen {
        Some(r) => str_eq(r.as_str(), id),
        None => false,
    };
    if hit {
        *reopen = None;
        Message::OpenSshTab(id.to_owned(), SshTabKind::Terminal)
    } else {
        Message::TestConnection(id.to_owned())
    }
}

/// The index of the first host with id `id`.
fn find_host(hosts: &Vec<SshHost>, id: &str) -> (r: Option<usize>)
    ensures
        match r {
            Some(i) => i < hosts@.len() && host_index(hosts@, id@) == Some(i as int),
            None => host_index(hosts@, id@) is None,
        },
{
    let mut i: usize = 0;
    assert(hosts@.skip(0) =~= hosts@);
    while i < hosts.len()
        invariant
            i <= hosts@.len(),
            host_index(hosts@, id@) == match host_index(hosts@.skip(i as int), id@) {
                Some(k) => Some(k + i),
                None => None,
            },
        decreases hosts@.len() - i,
    {
        assert(hosts@.skip(i as int).drop_first() =~= hosts@.skip(i + 1));
        if str_eq(hosts[i].id.as_str(), id) {
            return Some(i);
        }
        i = i + 1;
    }
    None
}

/// A copy of the host list.
fn clone_hosts(hosts: &Vec<SshHost>) -> (r: Vec<SshHost>)
    ensures
        r@ == hosts@,
{
    let mut r: Vec<SshHost> = Vec::new();
    let mut i: usize = 0;
    while i < hosts.len()
        invariant
            i <= hosts@.len(),
            r@ == hosts@.take(i as int),
        decreases hosts@.len() - i,
    {
        r.push(hosts[i].clone());
        i = i + 1;
        assert(r@ =~= hosts@.take(i as int));
    }
    assert(hosts@.take(hosts@.len() as int) =~= hosts@);
    r
}

/// The hosts without those of id `id`.
fn remove_hosts(hosts: &Vec<SshHost>, id: &str) -> (r: Vec<SshHost>)
    ensures
        r@ == without_host(hosts@, id@),
{
    let mut r: Vec<SshHost> = Vec::new();
    let mut i: usize = 0;
    assert(hosts@.take(0) =~= Seq::<SshHost>::empty());
    while i < hosts.len()
        invariant
            i <= hosts@.len(),
            r@ == without_host(hosts@.take(i as int), id@),
        decreases hosts@.len() - i,
    {
        assert(hosts@.take(i + 1).drop_last() =~= hosts@.take(i as int));
        if !str_eq(hosts[i].id.as_str(), id) {
            r.push(hosts[i].clone());
        }
        i = i + 1;
    }
    assert(hosts@.take(hosts@.len() as int) =~= hosts@);
    r
}

impl WorkspaceState {
    /// An empty panel.
    pub fn new() -> (r: Self)
        ensures
            r@.hosts.len() == 0,
            r@.editing is None,
            r@.test_status == Map::<Seq<char>, TestStatus>::empty(),
            r@.pending_keys == Map::<Seq<char>, Seq<u8>>::empty(),
            r@.reopen_after_trust is None,
            r@.hover_action is None,
            r@.os_info == Map::<Seq<char>, Seq<char>>::empty(),
            r@.delete_confirm is None,
    {
        let r = WorkspaceState {
            hosts: Vec::new(),
            editing: None,
            test_status: Vec::new(),
            pending_unknown_keys: Vec::new(),
            reopen_after_trust: None,
            hover_action: None,
            os_info: Vec::new(),
            delete_confirm: None,
        };
        assert(r@.test_status =~= Map::<Seq<char>, TestStatus>::empty());
        assert(r@.pending_keys =~= Map::<Seq<char>, Seq<u8>>::empty());
        assert(r@.os_info =~= Map::<Seq<char>, Seq<char>>::empty());
        r
    }

    /// A panel holding the hosts read from the project's host file.
    pub fn with_hosts(hosts: Vec<SshHost>) -> (r: Self)
        ensures
            r@.hosts == hosts@,
            r@.editing is None,
            r@.test_status == Map::<Seq<char>, TestStatus>::empty(),
            r@.pending_keys == Map::<Seq<char>, Seq<u8>>::empty(),
            r@.reopen_after_trust is None,
            r@.hover_action is None,
            r@.os_info == Map::<Seq<char>, Seq<char>>::empty(),
            r@.delete_confirm is None,
    {
        let mut r = Self::new();
        r.hosts = hosts;
        r
    }

    /// Replaces the host list (after re-reading the host file).
    pub fn set_hosts(&mut self, hosts: Vec<SshHost>)
        ensures
            final(self)@ == (SshView { hosts: hosts@, ..old(self)@ }),
    {
        self.hosts = hosts;
    }

    /// The configured hosts.
    pub fn hosts(&self) -> (r: &[SshHost])
        ensures
            r@ == self@.hosts,
    {
        self.hosts.as_slice()
    }

    /// The open host editor.
    pub fn editing(&self) -> (r: Option<&SshHostDraft>)
        ensures
            match r {
                Some(d) => self@.editing == Some(*d),
                None => self@.editing is None,
            },
    {
        self.editing.as_ref()
    }

    /// The test state of a host (`Idle` when it was never tested).
    pub fn test_status(&self, host_id: &str) -> (r: TestStatus)
        ensures
            r == if self@.test_status.contains_key(host_id@) { self@.test_status[host_id@] } else { TestStatus::Idle },
    {
        match kv_get(&self.test_status, host_id) {
            Some(s) => s.clone(),
            None => TestStatus::Idle,
        }
    }

    /// The icon button under the pointer on a host card.
    pub fn hover_action(&self) -> (r: Option<(&str, u8)>)
        ensures
            match r {
                Some((h, i)) => self@.hover_action == Some((h@, i)),
                None => self@.hover_action is None,
            },
    {
        match &self.hover_action {
            Some((h, i)) => Some((h.as_str(), *i)),
            None => None,
        }
    }

    /// Records that the terminal of `host_id` should reopen once its host key
    /// is trusted.
    pub fn record_reopen_after_trust(&mut self, host_id: String)
        ensures
            final(self)@ == (SshView { reopen_after_trust: Some(host_id@), ..old(self)@ }),
    {
        self.reopen_after_trust = Some(host_id);
    }

    /// The operating system read from a host after it logged in.
    pub fn os_info(&self, host_id: &str) -> (r: Option<&str>)
        ensures
            r is Some <==> self@.os_info.contains_key(host_id@),
            r matches Some(s) ==> s@ == self@.os_info[host_id@],
    {
        match kv_get(&self.os_info, host_id) {
            Some(s) => Some(s.as_str()),
            None => None,
        }
    }

    /// The host waiting for its deletion to be confirmed.
    pub fn delete_confirm(&self) -> (r: Option<&str>)
        ensures
            match r {
                Some(s) => self@.delete_confirm == Some(s@),
                None => self@.delete_confirm is None,
            },
    {
        match &self.delete_confirm {
            Some(s) => Some(s.as_str()),
            None => None,
        }
    }

    /// Asks for the deletion of `host_id` to be confirmed.
    pub fn request_delete(&mut self, host_id: String)
        ensures
            final(self)@ == (SshView { delete_confirm: Some(host_id@), ..old(self)@ }),
    {
        self.delete_confirm = Some(host_id);
    }

    /// Drops the pending deletion.
    pub fn cancel_delete(&mut self)
        ensures
            final(self)@ == (SshView { delete_confirm: None, ..old(self)@ }),
    {
        self.delete_confirm = None;
    }

    /// The stored test state of a host.
    fn status_of(&self, id: &str) -> (r: Option<&TestStatus>)
        ensures
            match r {
                Some(s) => self@.test_status.contains_key(id@) && self@.test_status[id@] == *s,
                None => !self@.test_status.contains_key(id@),
            },
    {
        kv_get(&self.test_status, id)
    }

    /// Sets the stored test state of a host.
    fn put_status(&mut self, id: &str, st: TestStatus)
        ensures
            final(self)@ == (SshView { test_status: old(self)@.test_status.insert(id@, st), ..old(self)@ }),
    {
        let ghost before = self@;
        let cs = chars_of(id);
        kv_put(&mut self.test_status, string_of(&cs), st);
        assert(self@.test_status =~= before.test_status.insert(id@, st));
    }

    /// Starts a connection test of host `id`.
    fn start_test(&mut self, id: &str, project_id: i64) -> (r: Vec<SshEffect>)
        ensures
            test_started(old(self)@, id@, project_id, final(self)@, ssh_effects_view(r@)),
    {
        let mut out: Vec<SshEffect> = Vec::new();
        match find_host(&self.hosts, id) {
            None => {
                assert(ssh_effects_view(out@) =~= Seq::<SshEffectView>::empty());
            },
            Some(i) => {
                let host = self.hosts[i].clone();
                self.put_status(id, TestStatus::Testing);
                let account = keyring_account_name(project_id, id);
                out.push(SshEffect::StartTest { host, account });
                assert(ssh_effects_view(out@) =~= seq![out@[0]@]);
            },
        }
        out
    }

    /// Handles the editor's messages.
    fn on_editor(&mut self, msg: Message, project_id: i64, fresh_id: String) -> (r: Vec<SshEffect>)
        requires
            msg is AddHostStart || msg is EditHostStart || msg is DraftNameChanged || msg is DraftHostChanged
                || msg is DraftPortChanged || msg is DraftUsernameChanged || msg is DraftAuthMethodToggled
                || msg is DraftKeyPathChanged || msg is DraftPasswordChanged || msg is DraftCancel,
        ensures
            ssh_transition(old(self)@, msg, project_id, fresh_id@, final(self)@, ssh_effects_view(r@)),
    {
        let out: Vec<SshEffect> = Vec::new();
        assert(ssh_effects_view(out@) =~= Seq::<SshEffectView>::empty());
        match msg {
            Message::AddHostStart => {
                self.editing = Some(SshHostDraft::new());
            },
            Message::EditHostStart(id) => {
                match find_host(&self.hosts, id.as_str()) {
                    None => {},
                    Some(i) => {
                        let h = &self.hosts[i];
                        let (use_private_key, key_path) = match &h.auth {
                            AuthMethod::Password => (false, String::new()),
                            AuthMethod::PrivateKey { key_path } => (true, key_path.clone()),
                        };
                        let d = SshHostDraft {
                            id: Some(h.id.clone()),
                            name: h.name.clone(),
                            host: h.host.clone(),
                            port: decimal_string(h.port as u64),
                            username: h.username.clone(),
                            use_private_key,
                            key_path,
                            password: String::new(),
                        };
                        self.editing = Some(d);
                    },
                }
            },
            Message::DraftNameChanged(v) => {
                match self.editing.take() {
                    Some(mut d) => { d.name = v; self.editing = Some(d); },
                    None => {},
                }
            },
            Message::DraftHostChanged(v) => {
                match self.editing.take() {
                    Some(mut d) => { d.host = v; self.editing = Some(d); },
                    None => {},
                }
            },
            Message::DraftPortChanged(v) => {
                match self.editing.take() {
                    Some(mut d) => { d.port = v; self.editing = Some(d); },
                    None => {},
                }
            },
            Message::DraftUsernameChanged(v) => {
                match self.editing.take() {
                    Some(mut d) => { d.username = v; self.editing = Some(d); },
                    None => {},
                }
            },
            Message::DraftAuthMethodToggled(v) => {
                match self.editing.take() {
                    Some(mut d) => { d.use_private_key = v; self.editing = Some(d); },
                    None => {},
                }
            },
            Message::DraftKeyPathChanged(v) => {
                match self.editing.take() {
                    Some(mut d) => { d.key_path = v; self.editing = Some(d); },
                    None => {},
                }
            },
            Message::DraftPasswordChanged(v) => {
                match self.editing.take() {
                    Some(mut d) => { d.password = v; self.editing = Some(d); },
                    None => {},
                }
            },
            Message::DraftCancel => {
                self.editing = None;
            },
            _ => {},
        }
        out
    }

    /// Saves the open draft as a host.
    fn on_draft_save(&mut self, project_id: i64, fresh_id: String) -> (r: Vec<SshEffect>)
        ensures
            ssh_transition(old(self)@, Message::DraftSave, project_id, fresh_id@, final(self)@, ssh_effects_view(r@)),
    {
        let ghost p = self@;
        let mut out: Vec<SshEffect> = Vec::new();
        let taken = self.editing.take();
        match taken {
            None => {
                assert(ssh_effects_view(out@) =~= Seq::<SshEffectView>::empty());
            },
            Some(d) => {
                let name_t = trim_str(d.name.as_str());
                let host_t = trim_str(d.host.as_str());
                let nc = chars_of(name_t.as_str());
                let hc = chars_of(host_t.as_str());
                if nc.len() == 0 || hc.len() == 0 {
                    self.editing = Some(d);
                    assert(ssh_effects_view(out@) =~= Seq::<SshEffectView>::empty());
                    assert(ssh_transition(p, Message::DraftSave, project_id, fresh_id@, self@, ssh_effects_view(out@)));
                    return out;
                }
                let id: String = match &d.id {
                    Some(i) => i.clone(),
                    None => fresh_id,
                };
                let ghost gid: Seq<char> = id@;
                let auth = if d.use_private_key {
                    AuthMethod::PrivateKey { key_path: trim_str(d.key_path.as_str()) }
                } else {
                    AuthMethod::Password
                };
                let pc = chars_of(d.port.as_str());
                let port: u16 = match parse_unsigned_chars(&pc, 65535) {
                    Some(v) => v as u16,
                    None => 22,
                };
                let host = SshHost {
                    id: id.clone(),
                    name: d.name.clone(),
                    host: host_t,
                    port,
                    username: trim_str(d.username.as_str()),
                    auth,
                };
                let ghost gh = host;
                assert(host_of_draft(gh, d, gid));
                match find_host(&self.hosts, id.as_str()) {
                    Some(pos) => {
                        self.hosts.set(pos, host);
                    },
                    None => {
                        self.hosts.push(host);
                    },
                }
                assert(self@.hosts == hosts_after_save(p.hosts, gh));
                let pw = chars_of(d.password.as_str());
                if pw.len() > 0 {
                    let account = keyring_account_name(project_id, id.as_str());
                    out.push(SshEffect::SetPassword { account, password: d.password.clone() });
                }
                let ghost first = ssh_effects_view(out@);
                assert(first =~= if d.password@.len() > 0 {
                    seq![SshEffectView::SetPassword { account: keyring_account(project_id, gid), password: d.password@ }]
                } else {
                    Seq::empty()
                });
                let snapshot = clone_hosts(&self.hosts);
                out.push(SshEffect::SaveHosts(snapshot));
                assert(ssh_effects_view(out@) =~= first.push(SshEffectView::SaveHosts(hosts_after_save(p.hosts, gh))));
                assert(self@ == (SshView { editing: None, hosts: hosts_after_save(p.hosts, gh), ..p }));
                assert(gid == match d.id {
                    Some(i) => i@,
                    None => fresh_id@,
                });
                assert(trim(d.name@).len() != 0 && trim(d.host@).len() != 0);
                assert(p.editing == Some(d));
                assert({
                    &&& host_of_draft(gh, d, gid)
                    &&& self@ == (SshView { editing: None, hosts: hosts_after_save(p.hosts, gh), ..p })
                    &&& ssh_effects_view(out@) == (if d.password@.len() > 0 {
                        seq![SshEffectView::SetPassword { account: keyring_account(project_id, gid), password: d.password@ }]
                    } else {
                        Seq::empty()
                    }).push(SshEffectView::SaveHosts(hosts_after_save(p.hosts, gh)))
                });
                assert(draft_saved(p, project_id, fresh_id@, self@, ssh_effects_view(out@)));
            },
        }
        out
    }

    /// Handles deletion and hover messages.
    fn on_delete(&mut self, msg: Message, project_id: i64, fresh_id: String) -> (r: Vec<SshEffect>)
        requires
            msg is DeleteHostRequest || msg is DeleteHostCancel || msg is DeleteHost || msg is HoverAction,
        ensures
            ssh_transition(old(self)@, msg, project_id, fresh_id@, final(self)@, ssh_effects_view(r@)),
    {
        let ghost p = self@;
        let mut out: Vec<SshEffect> = Vec::new();
        match msg {
            Message::DeleteHostRequest(id) => {
                self.request_delete(id);
            },
            Message::DeleteHostCancel => {
                self.cancel_delete();
            },
            Message::HoverAction(v) => {
                self.hover_action = v;
            },
            Message::DeleteHost(id) => {
                self.hosts = remove_hosts(&self.hosts, id.as_str());
                kv_remove(&mut self.test_status, id.as_str());
                kv_remove(&mut self.pending_unknown_keys, id.as_str());
                let same = match &self.delete_confirm {
                    Some(c) => str_eq(c.as_str(), id.as_str()),
                    None => false,
                };
                if same {
                    self.delete_confirm = None;
                }
                let account = keyring_account_name(project_id, id.as_str());
                out.push(SshEffect::DeleteCredential { account });
                let snapshot = clone_hosts(&self.hosts);
                out.push(SshEffect::SaveHosts(snapshot));
                assert(self@.test_status =~= p.test_status.remove(id@));
                assert(self@.pending_keys =~= p.pending_keys.remove(id@));
                assert(ssh_effects_view(out@) =~= seq![
                    SshEffectView::DeleteCredential { account: keyring_account(project_id, id@) },
                    SshEffectView::SaveHosts(without_host(p.hosts, id@)),
                ]);
            },
            _ => {},
        }
        assert(out@.len() == 0 ==> ssh_effects_view(out@) =~= Seq::<SshEffectView>::empty());
        out
    }

    /// Handles the results of tests, key checks and logins.
    fn on_status(&mut self, msg: Message, project_id: i64, fresh_id: String) -> (r: Vec<SshEffect>)
        requires
            msg is TestConnection || msg is TestConnectionResult || msg is UnknownKeyDetected || msg is KeyChanged
                || msg is TerminalConnectFailed || msg is FetchOsResult,
        ensures
            ssh_transition(old(self)@, msg, project_id, fresh_id@, final(self)@, ssh_effects_view(r@)),
    {
        let ghost p = self@;
        let out: Vec<SshEffect> = Vec::new();
        assert(ssh_effects_view(out@) =~= Seq::<SshEffectView>::empty());
        match msg {
            Message::TestConnection(id) => {
                return self.start_test(id.as_str(), project_id);
            },
            Message::TestConnectionResult(_, id, result) => {
                match result {
                    Ok(()) => {
                        self.put_status(id.as_str(), TestStatus::Passed);
                    },
                    Err(e) => {
                        let blocked = match self.status_of(id.as_str()) {
                            Some(TestStatus::UnknownHostKey { .. }) => true,
                            Some(TestStatus::KeyChanged { .. }) => true,
                            _ => false,
                        };
                        if !blocked {
                            self.put_status(id.as_str(), TestStatus::Failed(e));
                        }
                    },
                }
            },
            Message::UnknownKeyDetected(_, id, fp, bytes) => {
                self.put_status(id.as_str(), TestStatus::UnknownHostKey { fingerprint: fp });
                let ghost before = self@;
                let cs = chars_of(id.as_str());
                kv_put(&mut self.pending_unknown_keys, string_of(&cs), bytes);
                assert(self@.pending_keys =~= before.pending_keys.insert(id@, bytes@));
            },
            Message::KeyChanged(_, id, fp) => {
                self.put_status(id.as_str(), TestStatus::KeyChanged { fingerprint: fp });
            },
            Message::TerminalConnectFailed(_, id, _, err) => {
                let blocked = match self.status_of(id.as_str()) {
                    Some(TestStatus::UnknownHostKey { .. }) => true,
                    Some(TestStatus::KeyChanged { .. }) => true,
                    _ => false,
                };
                if !blocked {
                    self.put_status(id.as_str(), TestStatus::Failed(err));
                }
            },
            Message::FetchOsResult(_, id, result) => {
                match result {
                    Ok(os) => {
                        let ghost before = self@;
                        let cs = chars_of(id.as_str());
                        kv_put(&mut self.os_info, string_of(&cs), os);
                        assert(self@.os_info =~= before.os_info.insert(id@, os@));
                    },
                    Err(_) => {},
                }
            },
            _ => {},
        }
        out
    }

    /// Trusts the pending host key of `id`: records it, then reopens the
    /// terminal or tests the connection again.
    fn on_trust(&mut self, id: String, project_id: i64, fresh_id: String) -> (r: Vec<SshEffect>)
        ensures
            ssh_transition(old(self)@, Message::TrustHostKey(id), project_id, fresh_id@, final(self)@, ssh_effects_view(r@)),
    {
        let ghost p = self@;
        let mut out: Vec<SshEffect> = Vec::new();
        let key = match kv_get(&self.pending_unknown_keys, id.as_str()) {
            Some(k) => k.clone(),
            None => {
                assert(ssh_effects_view(out@) =~= Seq::<SshEffectView>::empty());
                return out;
            },
        };
        kv_remove(&mut self.pending_unknown_keys, id.as_str());
        assert(self@.pending_keys =~= p.pending_keys.remove(id@));
        let ghost q = self@;
        match find_host(&self.hosts, id.as_str()) {
            None => {
                assert(ssh_effects_view(out@) =~= Seq::<SshEffectView>::empty());
                out
            },
            Some(i) => {
                let host_name = self.hosts[i].host.clone();
                let port = self.hosts[i].port;
                out.push(SshEffect::LearnHostKey { host: host_name, port, key });
                let retry = pick_retry_message(&mut self.reopen_after_trust, id.as_str());
                match retry {
                    Message::OpenSshTab(h, _) => {
                        out.push(SshEffect::OpenTerminal(h));
                        assert(ssh_effects_view(out@) =~= seq![out@[0]@, out@[1]@]);
                        out
                    },
                    _ => {
                        let mut more = self.start_test(id.as_str(), project_id);
                        let ghost first = ssh_effects_view(out@);
                        let ghost rest = ssh_effects_view(more@);
                        out.append(&mut more);
                        assert(ssh_effects_view(out@) =~= first + rest);
                        assert(ssh_effects_view(out@).drop_first() =~= rest);
                        out
                    },
                }
            },
        }
    }

    /// Handles one message, with `fresh_id` as the id of a host saved from a
    /// draft that has none.
    pub fn apply(&mut self, msg: Message, project_id: i64, fresh_id: String) -> (r: Vec<SshEffect>)
        ensures
            ssh_transition(old(self)@, msg, project_id, fresh_id@, final(self)@, ssh_effects_view(r@)),
    {
        match msg {
            Message::DraftSave => self.on_draft_save(project_id, fresh_id),
            Message::TrustHostKey(id) => self.on_trust(id, project_id, fresh_id),
            Message::OpenSshTab(_, _) | Message::CloseSshTab(_, _) | Message::SelectSshTab(_, _) | Message::Sftp(_) => {
                let out: Vec<SshEffect> = Vec::new();
                assert(ssh_effects_view(out@) =~= Seq::<SshEffectView>::empty());
                out
            },
            Message::DeleteHostRequest(_) | Message::DeleteHostCancel | Message::DeleteHost(_) | Message::HoverAction(_) => {
                self.on_delete(msg, project_id, fresh_id)
            },
            Message::TestConnection(_) | Message::TestConnectionResult(_, _, _) | Message::UnknownKeyDetected(_, _, _, _)
            | Message::KeyChanged(_, _, _) | Message::TerminalConnectFailed(_, _, _, _) | Message::FetchOsResult(_, _, _) => {
                self.on_status(msg, project_id, fresh_id)
            },
            _ => self.on_editor(msg, project_id, fresh_id),
        }
    }

    /// `update`: handles one message. Saving a draft for a new host draws a
    /// fresh random version-4 UUID as its id; whatever UUID is drawn, the
    /// panel moves as `ssh_transition` says for that id.
    pub fn update(&mut self, msg: Message, project_id: i64) -> (r: Vec<SshEffect>)
        ensures
            exists|fresh: Seq<char>|
                #![trigger ssh_transition(old(self)@, msg, project_id, fresh, final(self)@, ssh_effects_view(r@))]
                (needs_fresh_id(old(self)@, msg) ==> uuid_text(fresh))
                && ssh_transition(old(self)@, msg, project_id, fresh, final(self)@, ssh_effects_view(r@)),
    {
        let needs_id = match (&msg, &self.editing) {
            (Message::DraftSave, Some(d)) => d.id.is_none(),
            _ => false,
        };
        assert(needs_id == needs_fresh_id(self@, msg));
        let fresh = if needs_id { new_host_id() } else { String::new() };
        let ghost f = fresh@;
        let r = self.apply(msg, project_id, fresh);
        assert((needs_fresh_id(old(self)@, msg) ==> uuid_text(f))
            && ssh_transition(old(self)@, msg, project_id, f, self@, ssh_effects_view(r@)));
        r
    }
}

/// The lines of a text as `str::lines` yields them: split at each `\n`,
/// a `\r` right before it dropped, no empty line after a final `\n`.
pub open spec fn text_lines(s: Seq<char>) -> Seq<Seq<char>>
    decreases s.len(),
{
    match first_index(s, '\n') {
        None => if s.len() == 0 { Seq::empty() } else { seq![s] },
        Some(i) => {
            proof {
                lemma_first_index_range(s, '\n');
            }
            let l = s.subrange(0, i);
            let l2 = if l.len() > 0 && l.last() == '\r' { l.drop_last() } else { l };
            seq![l2] + text_lines(s.subrange(i + 1, s.len() as int))
        },
    }
}

/// What follows `key` on the first line that starts with it.
pub open spec fn after_first_prefix(lines: Seq<Seq<char>>, key: Seq<char>) -> Option<Seq<char>>
    decreases lines.len(),
{
    if lines.len() == 0 {
        None
    } else if lines[0].len() >= key.len() && lines[0].subrange(0, key.len() as int) == key {
        Some(lines[0].subrange(key.len() as int, lines[0].len() as int))
    } else {
        after_first_prefix(lines.drop_first(), key)
    }
}

/// `s` without leading `c` characters.
pub open spec fn trim_start_char(s: Seq<char>, c: char) -> Seq<char>
    decreases s.len(),
{
    if s.len() > 0 && s[0] == c {
        trim_start_char(s.drop_first(), c)
    } else {
        s
    }
}

/// The value of field `key` (written with its `=`) of an os-release text:
/// on the first line starting with it, what follows, without surrounding
/// double quotes and then white space; nothing when that is empty.
pub open spec fn os_field(s: Seq<char>, key: Seq<char>) -> Option<Seq<char>> {
    match after_first_prefix(text_lines(s), key) {
        None => None,
        Some(rest) => {
            let v = trim(trim_end_char(trim_start_char(rest, '"'), '"'));
            if v.len() > 0 { Some(v) } else { None }
        },
    }
}

/// The system name read from an os-release text: `PRETTY_NAME`, else `NAME`
/// and `VERSION` joined by a space, else an error.
pub open spec fn os_name(s: Seq<char>) -> Result<Seq<char>, Seq<char>> {
    match os_field(s, "PRETTY_NAME="@) {
        Some(p) => Ok(p),
        None => match (os_field(s, "NAME="@), os_field(s, "VERSION="@)) {
            (Some(n), Some(v)) => Ok(n + seq![' '] + v),
            _ => Err("无法识别操作系统"@),
        },
    }
}

/// `s` without leading `c` characters.
fn trim_start_char_chars(s: &Vec<char>, c: char) -> (r: Vec<char>)
    ensures
        r@ == trim_start_char(s@, c),
{
    let mut i: usize = 0;
    assert(s@.skip(0) =~= s@);
    while i < s.len() && s[i] == c
        invariant
            i <= s.len(),
            trim_start_char(s@, c) == trim_start_char(s@.skip(i as int), c),
        decreases s.len() - i,
    {
        assert(s@.skip(i as int).drop_first() =~= s@.skip(i + 1));
        i = i + 1;
    }
    let mut r: Vec<char> = Vec::new();
    let mut k: usize = i;
    while k < s.len()
        invariant
            i <= k <= s.len(),
            r@ == s@.subrange(i as int, k as int),
        decreases s.len() - k,
    {
        r.push(s[k]);
        k = k + 1;
        assert(r@ =~= s@.subrange(i as int, k as int));
    }
    assert(r@ =~= s@.skip(i as int));
    if i < s.len() {
        assert(s@.skip(i as int)[0] == s@[i as int]);
    }
    r
}

/// The characters of `s` from `a` to `b`.
fn slice_chars(s: &Vec<char>, a: usize, b: usize) -> (r: Vec<char>)
    requires
        a <= b <= s.len(),
    ensures
        r@ == s@.subrange(a as int, b as int),
{
    let mut r: Vec<char> = Vec::new();
    let mut k: usize = a;
    while k < b
        invariant
            a <= k <= b <= s.len(),
            r@ == s@.subrange(a as int, k as int),
        decreases b - k,
    {
        r.push(s[k]);
        k = k + 1;
        assert(r@ =~= s@.subrange(a as int, k as int));
    }
    r
}

/// What follows `key` on the first line of `s` starting with it.
fn first_prefixed(s: &Vec<char>, key: &Vec<char>) -> (r: Option<Vec<char>>)
    ensures
        match r {
            Some(v) => after_first_prefix(text_lines(s@), key@) == Some(v@),
            None => after_first_prefix(text_lines(s@), key@) is None,
        },
{
    let n = s.len();
    let mut pos: usize = 0;
    assert(s@.subrange(0, n as int) =~= s@);
    while pos < n
        invariant
            pos <= n == s.len(),
            after_first_prefix(text_lines(s@), key@) == after_first_prefix(text_lines(s@.subrange(pos as int, n as int)), key@),
        decreases n - pos,
    {
        let ghost rest = s@.subrange(pos as int, n as int);
        let mut e: usize = pos;
        while e < n && s[e] != '\n'
            invariant
                pos <= e <= n == s.len(),
                forall|k: int| pos <= k < e ==> s@[k] != '\n',
            decreases n - e,
        {
            e = e + 1;
        }
        proof {
            assert forall|k: int| 0 <= k < e - pos implies rest[k] != '\n' by {
                assert(rest[k] == s@[pos + k]);
            }
            if e < n {
                assert(rest[e - pos] == s@[e as int]);
            }
            lemma_first_index(rest, '\n', e - pos);
        }
        let mut line_end = e;
        if e < n && e > pos && s[e - 1] == '\r' {
            line_end = e - 1;
        }
        let line = slice_chars(s, pos, line_end);
        proof {
            let l = rest.subrange(0, e - pos);
            assert(l =~= s@.subrange(pos as int, e as int));
            if e < n {
                if e > pos && s@[e - 1] == '\r' {
                    assert(l.last() == s@[e - 1]);
                    assert(line@ =~= l.drop_last());
                } else {
                    assert(line@ =~= l);
                }
                assert(text_lines(rest) == seq![line@] + text_lines(rest.subrange(e - pos + 1, rest.len() as int)));
                assert(rest.subrange(e - pos + 1, rest.len() as int) =~= s@.subrange(e + 1, n as int));
            } else {
                assert(line@ =~= rest);
                assert(rest.len() > 0);
                assert(text_lines(rest) == seq![line@]);
            }
        }
        let kl = key.len();
        let mut hit = line.len() >= kl;
        if hit {
            let mut j: usize = 0;
            while j < kl && hit
                invariant
                    j <= kl == key.len(),
                    kl <= line.len(),
                    hit ==> forall|t: int| 0 <= t < j ==> line@[t] == key@[t],
                    !hit ==> line@.subrange(0, kl as int) != key@,
                decreases kl - j + if hit { 1int } else { 0int },
            {
                if line[j] != key[j] {
                    hit = false;
                    assert(line@.subrange(0, kl as int)[j as int] != key@[j as int]);
                } else {
                    j = j + 1;
                }
            }
            if hit {
                assert(line@.subrange(0, kl as int) =~= key@);
            }
        }
        let ghost lines = text_lines(rest);
        if hit {
            let v = slice_chars(&line, kl, line.len());
            assert(lines[0] == line@);
            return Some(v);
        }
        assert(lines[0] == line@);
        if e >= n {
            assert(lines.drop_first() =~= Seq::<Seq<char>>::empty());
            assert(after_first_prefix(Seq::<Seq<char>>::empty(), key@) is None);
            return None;
        }
        assert(lines.drop_first() == text_lines(s@.subrange(e + 1, n as int)));
        pos = e + 1;
    }
    proof {
        assert(s@.subrange(pos as int, n as int) =~= Seq::<char>::empty());
        lemma_first_index(Seq::<char>::empty(), '\n', 0);
    }
    None
}

/// The value of field `key` of an os-release text.
fn os_field_exec(s: &Vec<char>, key: &str) -> (r: Option<Vec<char>>)
    ensures
        match r {
            Some(v) => os_field(s@, key@) == Some(v@),
            None => os_field(s@, key@) is None,
        },
{
    let k = chars_of(key);
    match first_prefixed(s, &k) {
        None => None,
        Some(rest) => {
            let a = trim_start_char_chars(&rest, '"');
            let b = trim_end_char_chars(&a, '"');
            let v = trim_chars(&b);
            if v.len() > 0 { Some(v) } else { None }
        },
    }
}

/// `fetch_os_info`'s reading of `/etc/os-release`: the system name shown on
/// a host card, or the error text when it cannot be told.
pub fn parse_os_release(text: &str) -> (r: Result<String, String>)
    ensures
        match r {
            Ok(v) => os_name(text@) == Ok::<Seq<char>, Seq<char>>(v@),
            Err(e) => os_name(text@) == Err::<Seq<char>, Seq<char>>(e@),
        },
{
    let cs = chars_of(text);
    match os_field_exec(&cs, "PRETTY_NAME=") {
        Some(p) => {
            return Ok(string_of(&p));
        },
        None => {},
    }
    let name = os_field_exec(&cs, "NAME=");
    let version = os_field_exec(&cs, "VERSION=");
    match (name, version) {
        (Some(mut n), Some(mut v)) => {
            let ghost n0 = n@;
            let ghost v0 = v@;
            n.push(' ');
            n.append(&mut v);
            assert(n@ =~= n0 + seq![' '] + v0);
            Ok(string_of(&n))
        },
        _ => Err("无法识别操作系统".to_owned()),
    }
}

proof fn lemma_host_index_range(hosts: Seq<SshHost>, id: Seq<char>)
    ensures
        host_index(hosts, id) matches Some(i) ==> 0 <= i < hosts.len() && hosts[i].id@ == id,
    decreases hosts.len(),
{
    if hosts.len() > 0 && hosts[0].id@ != id {
        lemma_host_index_range(hosts.drop_first(), id);
    }
}

/// The stored test state of `id`, if any.
pub open spec fn stored_status(p: SshView, id: Seq<char>) -> Option<TestStatus> {
    if p.test_status.contains_key(id) { Some(p.test_status[id]) } else { None }
}

/// A late generic failure (a failed test or terminal connection) never hides
/// that a host's key is unknown or has changed.
pub proof fn law_key_problem_not_overwritten(p: SshView, msg: Message, project_id: i64, fresh: Seq<char>, p2: SshView, e: Seq<SshEffectView>)
    requires
        ssh_transition(p, msg, project_id, fresh, p2, e),
        (msg matches Message::TestConnectionResult(_, id, Err(_)) && key_problem(stored_status(p, id@)))
            || (msg matches Message::TerminalConnectFailed(_, id, _, _) && key_problem(stored_status(p, id@))),
    ensures
        p2 == p,
        e.len() == 0,
{
}

/// A system name read once is never dropped by a later failed read.
pub proof fn law_os_name_kept_on_failure(p: SshView, pid: i64, id: String, err: String, project_id: i64, fresh: Seq<char>, p2: SshView, e: Seq<SshEffectView>)
    requires
        ssh_transition(p, Message::FetchOsResult(pid, id, Err(err)), project_id, fresh, p2, e),
    ensures
        p2 == p,
{
}

/// Trusting a host key uses up the key waiting for it; the terminal is
/// reopened exactly when it was that host's terminal that met the unknown
/// key, and otherwise the connection is tested again.
pub proof fn law_trust_uses_pending_key(p: SshView, id: String, project_id: i64, fresh: Seq<char>, p2: SshView, e: Seq<SshEffectView>)
    requires
        ssh_transition(p, Message::TrustHostKey(id), project_id, fresh, p2, e),
        p.pending_keys.contains_key(id@),
    ensures
        !p2.pending_keys.contains_key(id@),
        host_index(p.hosts, id@) is Some ==> (e.len() == 2 && e[0] is LearnHostKey),
        host_index(p.hosts, id@) is Some && p.reopen_after_trust == Some(id@) ==> e[1] == SshEffectView::OpenTerminal(id@)
            && p2.reopen_after_trust is None,
        host_index(p.hosts, id@) is Some && p.reopen_after_trust != Some(id@) ==> e[1] is StartTest
            && p2.test_status[id@] == TestStatus::Testing,
{
    let q = SshView { pending_keys: p.pending_keys.remove(id@), ..p };
    assert(host_index(q.hosts, id@) == host_index(p.hosts, id@));
    if host_index(p.hosts, id@) is Some && p.reopen_after_trust != Some(id@) {
        assert(e.drop_first()[0] == e[1]);
    }
}

proof fn lemma_without_host(hosts: Seq<SshHost>, id: Seq<char>)
    ensures
        forall|k: int| 0 <= k < without_host(hosts, id).len() ==> (#[trigger] without_host(hosts, id)[k]).id@ != id,
        forall|k: int| 0 <= k < hosts.len() && hosts[k].id@ != id ==> without_host(hosts, id).contains(#[trigger] hosts[k]),
    decreases hosts.len(),
{
    if hosts.len() > 0 {
        lemma_without_host(hosts.drop_last(), id);
        let rest = without_host(hosts.drop_last(), id);
        assert forall|k: int| 0 <= k < hosts.len() && hosts[k].id@ != id implies without_host(hosts, id).contains(#[trigger] hosts[k]) by {
            if k < hosts.len() - 1 {
                assert(hosts[k] == hosts.drop_last()[k]);
                assert(rest.contains(hosts[k]));
                let m = choose|m: int| 0 <= m < rest.len() && rest[m] == hosts[k];
                if hosts.last().id@ != id {
                    assert(rest.push(hosts.last())[m] == hosts[k]);
                }
            } else {
                assert(without_host(hosts, id) == rest.push(hosts.last()));
                assert(without_host(hosts, id)[rest.len() as int] == hosts[k]);
            }
        }
    }
}

/// Deleting a host removes every host with its id, keeps every other host,
/// forgets its test state and pending key, and saves the list.
pub proof fn law_delete_forgets_host(p: SshView, id: String, project_id: i64, fresh: Seq<char>, p2: SshView, e: Seq<SshEffectView>)
    requires
        ssh_transition(p, Message::DeleteHost(id), project_id, fresh, p2, e),
    ensures
        forall|k: int| 0 <= k < p2.hosts.len() ==> (#[trigger] p2.hosts[k]).id@ != id@,
        forall|k: int| 0 <= k < p.hosts.len() && p.hosts[k].id@ != id@ ==> p2.hosts.contains(#[trigger] p.hosts[k]),
        !p2.test_status.contains_key(id@),
        !p2.pending_keys.contains_key(id@),
        e.last() == SshEffectView::SaveHosts(p2.hosts),
{
    lemma_without_host(p.hosts, id@);
}

/// Saving an edited host keeps the number of hosts; saving a new one adds
/// one. A draft with a blank name or address saves nothing.
pub proof fn law_save_replaces_or_appends(p: SshView, project_id: i64, fresh: Seq<char>, p2: SshView, e: Seq<SshEffectView>)
    requires
        ssh_transition(p, Message::DraftSave, project_id, fresh, p2, e),
        p.editing is Some,
    ensures
        ({
            let d = p.editing.unwrap();
            let id = match d.id {
                Some(i) => i@,
                None => fresh,
            };
            if trim(d.name@).len() == 0 || trim(d.host@).len() == 0 {
                p2 == p && e.len() == 0
            } else {
                &&& p2.editing is None
                &&& p2.hosts.len() == if host_index(p.hosts, id) is Some { p.hosts.len() } else { p.hosts.len() + 1 }
                &&& e.last() == SshEffectView::SaveHosts(p2.hosts)
            }
        }),
{
    assert(draft_saved(p, project_id, fresh, p2, e));
    let d = p.editing.unwrap();
    lemma_host_index_range(p.hosts, match d.id {
        Some(i) => i@,
        None => fresh,
    });
    let id = match d.id {
        Some(i) => i@,
        None => fresh,
    };
    if !(trim(d.name@).len() == 0 || trim(d.host@).len() == 0) {
        let saved = match host_index(p.hosts, id) {
            Some(i) => p2.hosts[i],
            None => p2.hosts.last(),
        };
        assert(host_of_draft(saved, d, id));
        assert(saved.id@ == id);
        assert(p2.hosts == hosts_after_save(p.hosts, saved));
    }
}


/// How a connection test ended, as the connection task reports it.
#[derive(Debug)]
pub enum TestOutcome {
    /// The handshake and the login succeeded.
    Connected,
    /// The host key is not among the known hosts.
    UnknownHostKey { fingerprint: String, key: Vec<u8> },
    /// The known hosts hold another key for the host.
    KeyChanged { fingerprint: String },
    /// Any other failure, with its text.
    Failed(String),
    /// No answer within the time limit.
    TimedOut,
}

/// Message `m` reports the result `res` of a test of host `id` of project
/// `project_id`.
pub open spec fn reports_result(m: Message, project_id: i64, id: Seq<char>, res: Result<(), Seq<char>>) -> bool {
    m matches Message::TestConnectionResult(p, i, r) && p == project_id && i@ == id && match (r, res) {
        (Ok(()), Ok(())) => true,
        (Err(e), Err(t)) => e@ == t,
        _ => false,
    }
}

/// The messages a finished connection test of host `id` is reported with: a
/// success; for an unknown key, the key (so it can be trusted) and then a
/// failure naming its fingerprint; for a changed key, the change and then a
/// failure naming the fingerprint; otherwise a failure with the error's text
/// or the time-out.
pub fn test_outcome_messages(project_id: i64, id: String, outcome: TestOutcome) -> (r: Vec<Message>)
    ensures
        match outcome {
            TestOutcome::Connected => r@.len() == 1 && reports_result(r@[0], project_id, id@, Ok(())),
            TestOutcome::UnknownHostKey { fingerprint, key } => {
                &&& r@.len() == 2
                &&& r@[0] matches Message::UnknownKeyDetected(p, i, f, k)
                    && p == project_id && i@ == id@ && f@ == fingerprint@ && k@ == key@
                &&& reports_result(r@[1], project_id, id@, Err("未知主机,指纹 "@ + fingerprint@ + "——需要确认信任"@))
            },
            TestOutcome::KeyChanged { fingerprint } => {
                &&& r@.len() == 2
                &&& r@[0] matches Message::KeyChanged(p, i, f) && p == project_id && i@ == id@ && f@ == fingerprint@
                &&& reports_result(r@[1], project_id, id@, Err("主机指纹已变化("@ + fingerprint@ + "),拒绝连接"@))
            },
            TestOutcome::Failed(e) => r@.len() == 1 && reports_result(r@[0], project_id, id@, Err(e@)),
            TestOutcome::TimedOut => r@.len() == 1 && reports_result(r@[0], project_id, id@, Err("连接超时(5秒)"@)),
        },
{
    match outcome {
        TestOutcome::Connected => vec![Message::TestConnectionResult(project_id, id, Ok(()))],
        TestOutcome::UnknownHostKey { fingerprint, key } => {
            let mut cs = chars_of("未知主机,指纹 ");
            let mut f = chars_of(fingerprint.as_str());
            cs.append(&mut f);
            let mut tail = chars_of("——需要确认信任");
            cs.append(&mut tail);
            let text = string_of(&cs);
            let first = Message::UnknownKeyDetected(project_id, id.clone(), fingerprint, key);
            vec![first, Message::TestConnectionResult(project_id, id, Err(text))]
        },
        TestOutcome::KeyChanged { fingerprint } => {
            let mut cs = chars_of("主机指纹已变化(");
            let mut f = chars_of(fingerprint.as_str());
            cs.append(&mut f);
            let mut tail = chars_of("),拒绝连接");
            cs.append(&mut tail);
            let text = string_of(&cs);
            let first = Message::KeyChanged(project_id, id.clone(), fingerprint);
            vec![first, Message::TestConnectionResult(project_id, id, Err(text))]
        },
        TestOutcome::Failed(e) => vec![Message::TestConnectionResult(project_id, id, Err(e))],
        TestOutcome::TimedOut => vec![Message::TestConnectionResult(project_id, id, Err("连接超时(5秒)".to_owned()))],
    }
}


/// `base` with the relative component `comp` appended as `PathBuf::push`
/// does on `/`-separated paths: a separator goes between them unless `base`
/// is empty or already ends with one.
pub open spec fn path_pushed(base: Seq<char>, comp: Seq<char>) -> Seq<char> {
    if base.len() == 0 || base.last() == '/' { base + comp } else { base + seq!['/'] + comp }
}

/// The host list file of the project at `repo`: `.dozer/ssh_hosts.json`
/// inside it.
pub open spec fn hosts_file(repo: Seq<char>) -> Seq<char> {
    path_pushed(path_pushed(repo, ".dozer"@), "ssh_hosts.json"@)
}

fn push_component(base: &str, comp: &str) -> (r: String)
    ensures
        r@ == path_pushed(base@, comp@),
{
    let mut cs = chars_of(base);
    let n = cs.len();
    if n > 0 && cs[n - 1] != '/' {
        cs.push('/');
    }
    let mut c = chars_of(comp);
    cs.append(&mut c);
    string_of(&cs)
}

/// The path of the host list file of the project at `repo`.
pub fn hosts_path(repo: &str) -> (r: String)
    ensures
        r@ == hosts_file(repo@),
{
    let dir = push_component(repo, ".dozer");
    push_component(dir.as_str(), "ssh_hosts.json")
}

} // verus!
