//! Starting with the session: a task that the logon triggers, or a registry entry where
//! that fails.
//!
//! It has to be the session of the user: a service does not see what they play. Three
//! defaults of tasks would stop the program without a word, and are all turned off: not
//! starting on battery, stopping when the plug is pulled, and the limit of three days.
use vstd::prelude::*;

use crate::config;
use crate::detect;
use crate::text;

verus! {

/// The task up to the first place of the user.
pub const XML_START: &'static str = r#"<?xml version="1.0" encoding="UTF-16"?>
<Task version="1.2" xmlns="http://schemas.microsoft.com/windows/2004/02/mit/task">
  <RegistrationInfo>
    <Description>stayawake - activity-based sleep suppression daemon</Description>
  </RegistrationInfo>
  <Triggers>
    <LogonTrigger>
      <Enabled>true</Enabled>
      <UserId>"#;

/// Between the two places of the user.
pub const XML_PRINCIPAL: &'static str = r#"</UserId>
    </LogonTrigger>
  </Triggers>
  <Principals>
    <Principal id="Author">
      <UserId>"#;

/// From the second place of the user to the program.
pub const XML_SETTINGS: &'static str = r#"</UserId>
      <LogonType>InteractiveToken</LogonType>
      <RunLevel>LeastPrivilege</RunLevel>
    </Principal>
  </Principals>
  <Settings>
    <MultipleInstancesPolicy>IgnoreNew</MultipleInstancesPolicy>
    <DisallowStartIfOnBatteries>false</DisallowStartIfOnBatteries>
    <StopIfGoingOnBatteries>false</StopIfGoingOnBatteries>
    <AllowHardTerminate>true</AllowHardTerminate>
    <StartWhenAvailable>true</StartWhenAvailable>
    <RunOnlyIfNetworkAvailable>false</RunOnlyIfNetworkAvailable>
    <IdleSettings>
      <StopOnIdleEnd>false</StopOnIdleEnd>
      <RestartOnIdle>false</RestartOnIdle>
    </IdleSettings>
    <AllowStartOnDemand>true</AllowStartOnDemand>
    <Enabled>true</Enabled>
    <Hidden>false</Hidden>
    <RunOnlyIfIdle>false</RunOnlyIfIdle>
    <WakeToRun>false</WakeToRun>
    <ExecutionTimeLimit>PT0S</ExecutionTimeLimit>
    <Priority>7</Priority>
  </Settings>
  <Actions Context="Author">
    <Exec>
      <Command>"#;

/// Between the program and its directory.
pub const XML_DIRECTORY: &'static str = r#"</Command>
      <WorkingDirectory>"#;

/// Behind the directory.
pub const XML_END: &'static str = r#"</WorkingDirectory>
    </Exec>
  </Actions>
</Task>
"#;

/// The registry key of programs that start with the session.
pub const RUN_KEY: &'static str = r"HKCU\Software\Microsoft\Windows\CurrentVersion\Run";

/// The name of the task and of the registry value.
pub const TASK_NAME: &'static str = "stayawake";

// ───────────────────────── the account ─────────────────────────

pub open spec fn account(user: Option<Seq<char>>, domain: Option<Seq<char>>) -> Seq<char> {
    let u = match user {
        Some(u) => u,
        None => Seq::empty(),
    };
    match domain {
        Some(d) => if d.len() > 0 && u.len() > 0 {
            d + "\\"@ + u
        } else {
            u
        },
        None => u,
    }
}

/// The account from the names of the user and the domain: with the domain in front where
/// both are known.
pub fn account_name(user: &Option<String>, domain: &Option<String>) -> (r: String)
    ensures
        r@ == account(config::opt_view(*user), config::opt_view(*domain)),
{
    let u = match user {
        Some(u) => u.as_str().to_owned(),
        None => String::new(),
    };
    assert(user is None ==> u@ == Seq::<char>::empty());
    match domain {
        Some(d) => {
            if d.as_str().unicode_len() > 0 && u.as_str().unicode_len() > 0 {
                let mut r = d.as_str().to_owned();
                r.append("\\");
                r.append(u.as_str());
                r
            } else {
                u
            }
        },
        None => u,
    }
}

// ───────────────────────── XML text ─────────────────────────

/// A character as it stands in XML text.
pub open spec fn escaped_char(c: char) -> Seq<char> {
    if c == '&' {
        "&amp;"@
    } else if c == '<' {
        "&lt;"@
    } else if c == '>' {
        "&gt;"@
    } else if c == '"' {
        "&quot;"@
    } else {
        seq![c]
    }
}

pub open spec fn escaped(s: Seq<char>) -> Seq<char>
    decreases s.len(),
{
    if s.len() == 0 {
        Seq::empty()
    } else {
        escaped(s.drop_last()) + escaped_char(s.last())
    }
}

/// A text as it stands in XML.
pub fn esc(s: &str) -> (r: String)
    ensures
        r@ == escaped(s@),
{
    let chars = text::chars_of(s);
    let mut r = String::new();
    let mut i: usize = 0;
    assert(r@ == escaped(s@.take(0)));
    while i < chars.len()
        invariant
            i <= chars@.len(),
            chars@ == s@,
            r@ == escaped(s@.take(i as int)),
        decreases chars@.len() - i,
    {
        let c = chars[i];
        assert(s@.take(i + 1).drop_last() == s@.take(i as int));
        assert(s@.take(i + 1).last() == c);
        if c == '&' {
            r.append("&amp;");
        } else if c == '<' {
            r.append("&lt;");
        } else if c == '>' {
            r.append("&gt;");
        } else if c == '"' {
            r.append("&quot;");
        } else {
            let ghost done = r@;
            r.push(c);
            assert(r@ == done + seq![c]);
        }
        i = i + 1;
    }
    assert(s@.take(i as int) == s@);
    r
}

/// Escaped text has no character that would end it or open an element.
pub proof fn law_escaped_text_is_inert(s: Seq<char>, i: int)
    requires
        0 <= i < escaped(s).len(),
    ensures
        escaped(s)[i] != '<',
        escaped(s)[i] != '>',
        escaped(s)[i] != '"',
    decreases s.len(),
{
    reveal_strlit("&amp;");
    reveal_strlit("&lt;");
    reveal_strlit("&gt;");
    reveal_strlit("&quot;");
    if s.len() > 0 {
        let head = escaped(s.drop_last());
        if i < head.len() {
            law_escaped_text_is_inert(s.drop_last(), i);
        } else {
            assert(escaped(s)[i] == escaped_char(s.last())[i - head.len()]);
        }
    }
}

/// Reads XML text back: each of the four references becomes its character.
pub open spec fn unescaped(s: Seq<char>) -> Seq<char>
    decreases s.len(),
{
    if s.len() == 0 {
        Seq::empty()
    } else if s.len() >= 5 && s.take(5) == "&amp;"@ {
        seq!['&'] + unescaped(s.skip(5))
    } else if s.len() >= 4 && s.take(4) == "&lt;"@ {
        seq!['<'] + unescaped(s.skip(4))
    } else if s.len() >= 4 && s.take(4) == "&gt;"@ {
        seq!['>'] + unescaped(s.skip(4))
    } else if s.len() >= 6 && s.take(6) == "&quot;"@ {
        seq!['"'] + unescaped(s.skip(6))
    } else {
        seq![s[0]] + unescaped(s.skip(1))
    }
}

/// Escaping from the front, which is how it is read.
proof fn lemma_escaped_front(s: Seq<char>)
    requires
        s.len() > 0,
    ensures
        escaped(s) == escaped_char(s[0]) + escaped(s.skip(1)),
    decreases s.len(),
{
    reveal_with_fuel(escaped, 2);
    if s.len() == 1 {
        assert(s.drop_last() == Seq::<char>::empty());
        assert(s.skip(1) == Seq::<char>::empty());
        assert(escaped(s) == escaped_char(s[0]));
    } else {
        lemma_escaped_front(s.drop_last());
        assert(s.drop_last().skip(1) == s.skip(1).drop_last());
        assert(s.skip(1).last() == s.last());
        assert(escaped(s) == escaped_char(s[0]) + (escaped(s.skip(1).drop_last()) + escaped_char(
            s.last(),
        )));
    }
}

/// What was escaped reads back as it was.
pub proof fn law_escaped_text_reads_back(s: Seq<char>)
    ensures
        unescaped(escaped(s)) == s,
    decreases s.len(),
{
    reveal_strlit("&amp;");
    reveal_strlit("&lt;");
    reveal_strlit("&gt;");
    reveal_strlit("&quot;");
    if s.len() > 0 {
        let c = s[0];
        let rest = s.skip(1);
        let e = escaped(s);
        let k = escaped_char(c).len() as int;
        lemma_escaped_front(s);
        law_escaped_text_reads_back(rest);
        assert(e.skip(k) == escaped(rest));
        assert(e.take(k) == escaped_char(c));
        assert(e[0] == escaped_char(c)[0]);
        if c == '&' || c == '<' || c == '>' || c == '"' {
            assert(e[1] == escaped_char(c)[1]);
            assert(e.len() >= 5 ==> e.take(5)[1] == e[1]);
            assert(e.len() >= 4 ==> e.take(4)[1] == e[1]);
        } else {
            assert(e.len() >= 5 ==> e.take(5)[0] == c);
            assert(e.len() >= 4 ==> e.take(4)[0] == c);
            assert(e.len() >= 6 ==> e.take(6)[0] == c);
        }
        assert(s == seq![c] + rest);
    }
}

// ───────────────────────── the task ─────────────────────────

pub open spec fn task(user: Seq<char>, exe: Seq<char>, dir: Seq<char>) -> Seq<char> {
    XML_START@ + escaped(user) + XML_PRINCIPAL@ + escaped(user) + XML_SETTINGS@ + escaped(exe)
        + XML_DIRECTORY@ + escaped(dir) + XML_END@
}

/// The task for a user and a program in a directory.
pub fn task_xml(user: &str, exe: &str, dir: &str) -> (r: String)
    ensures
        r@ == task(user@, exe@, dir@),
{
    let user = esc(user);
    let mut r = XML_START.to_owned();
    r.append(user.as_str());
    r.append(XML_PRINCIPAL);
    r.append(user.as_str());
    r.append(XML_SETTINGS);
    r.append(esc(exe).as_str());
    r.append(XML_DIRECTORY);
    r.append(esc(dir).as_str());
    r.append(XML_END);
    r
}

// ───────────────────────── UTF-16 ─────────────────────────

/// The UTF-16 units of a character.
pub open spec fn units(c: char) -> Seq<u16> {
    let u = c as u32;
    if u < 0x1_0000 {
        seq![u as u16]
    } else {
        seq![
            (0xD800 + (u - 0x1_0000) / 0x400) as u16,
            (0xDC00 + (u - 0x1_0000) % 0x400) as u16,
        ]
    }
}

pub open spec fn encoded(s: Seq<char>) -> Seq<u16>
    decreases s.len(),
{
    if s.len() == 0 {
        Seq::empty()
    } else {
        units(s[0]) + encoded(s.skip(1))
    }
}

/// A text in UTF-16.
pub fn encode_utf16(s: &str) -> (r: Vec<u16>)
    ensures
        r@ == encoded(s@),
{
    let chars = text::chars_of(s);
    let mut r: Vec<u16> = Vec::new();
    let mut i: usize = 0;
    assert(s@.skip(0) == s@);
    while i < chars.len()
        invariant
            i <= chars@.len(),
            chars@ == s@,
            r@ + encoded(s@.skip(i as int)) == encoded(s@),
        decreases chars@.len() - i,
    {
        let ghost rest = s@.skip(i as int);
        let ghost done = r@;
        assert(rest[0] == chars@[i as int]);
        assert(rest.skip(1) == s@.skip(i + 1));
        let u: u32 = chars[i] as u32;
        if u < 0x1_0000 {
            r.push(u as u16);
        } else {
            r.push((0xD800 + (u - 0x1_0000) / 0x400) as u16);
            r.push((0xDC00 + (u - 0x1_0000) % 0x400) as u16);
        }
        assert(r@ == done + units(rest[0]));
        assert(r@ + encoded(s@.skip(i + 1)) == done + encoded(rest));
        i = i + 1;
    }
    assert(encoded(s@.skip(i as int)) == Seq::<u16>::empty());
    assert(r@ == encoded(s@));
    r
}

/// The units of a character read back as that character.
proof fn lemma_units(c: char, rest: Seq<u16>)
    ensures
        detect::utf16(units(c) + rest) == seq![c] + detect::utf16(rest),
{
    let u = c as u32;
    let e = units(c) + rest;
    if u < 0x1_0000 {
        assert(e[0] == u as u16);
        assert(e.skip(1) == rest);
        assert(e[0] as char == c);
    } else {
        let v = u - 0x1_0000;
        assert(0 <= v / 0x400 < 0x400 && v == 0x400 * (v / 0x400) + v % 0x400);
        assert(e[0] == 0xD800 + v / 0x400);
        assert(e[1] == 0xDC00 + v % 0x400);
        assert(e.skip(2) == rest);
        assert(detect::paired(e[0], e[1]) == c);
    }
}

/// Text in UTF-16 reads back as it was.
pub proof fn law_utf16_reads_back(s: Seq<char>)
    ensures
        detect::utf16(encoded(s)) == s,
    decreases s.len(),
{
    if s.len() > 0 {
        let rest = s.skip(1);
        law_utf16_reads_back(rest);
        lemma_units(s[0], encoded(rest));
        assert(s == seq![s[0]] + rest);
    }
}

/// The bytes of UTF-16 units, low byte first.
pub open spec fn little_endian(s: Seq<u16>) -> Seq<u8>
    decreases s.len(),
{
    if s.len() == 0 {
        Seq::empty()
    } else {
        little_endian(s.drop_last()) + seq![(s.last() % 256) as u8, (s.last() / 256) as u8]
    }
}

/// A text file in UTF-16, which the task scheduler wants: the byte order mark, then the
/// units with their low byte first.
pub fn utf16_file(s: &str) -> (bytes: Vec<u8>)
    ensures
        bytes@ == seq![0xFFu8, 0xFEu8] + little_endian(encoded(s@)),
{
    let mut bytes: Vec<u8> = vec![0xFF, 0xFE];
    let all = encode_utf16(s);
    let mut i: usize = 0;
    assert(bytes@ == seq![0xFFu8, 0xFEu8] + little_endian(all@.take(0)));
    while i < all.len()
        invariant
            i <= all@.len(),
            bytes@ == seq![0xFFu8, 0xFEu8] + little_endian(all@.take(i as int)),
        decreases all@.len() - i,
    {
        let u: u16 = all[i];
        bytes.push((u % 256) as u8);
        bytes.push((u / 256) as u8);
        assert(all@.take(i + 1).drop_last() == all@.take(i as int));
        i = i + 1;
        assert(bytes@ == seq![0xFFu8, 0xFEu8] + little_endian(all@.take(i as int)));
    }
    assert(all@.take(i as int) == all@);
    bytes
}

// ───────────────────────── commands ─────────────────────────

/// A program to run.
pub struct Call {
    pub program: &'static str,
    pub args: Vec<String>,
}

impl Call {
    /// Whether the call is of a program with arguments.
    pub open spec fn runs(self, program: Seq<char>, args: Seq<Seq<char>>) -> bool {
        self.program@ == program && text::views(self.args@) == args
    }
}

/// Registers the task in a file.
pub fn schedule_call(file: &str) -> (c: Call)
    ensures
        c.runs(
            "schtasks"@,
            seq!["/create"@, "/tn"@, TASK_NAME@, "/xml"@, file@, "/f"@],
        ),
{
    let mut args: Vec<String> = Vec::new();
    text::push_text(&mut args, "/create");
    text::push_text(&mut args, "/tn");
    text::push_text(&mut args, TASK_NAME);
    text::push_text(&mut args, "/xml");
    text::push_text(&mut args, file);
    text::push_text(&mut args, "/f");
    assert(text::views(args@) == seq!["/create"@, "/tn"@, TASK_NAME@, "/xml"@, file@, "/f"@]);
    Call { program: "schtasks", args }
}

/// Removes the task.
pub fn unschedule_call() -> (c: Call)
    ensures
        c.runs("schtasks"@, seq!["/delete"@, "/tn"@, TASK_NAME@, "/f"@]),
{
    let mut args: Vec<String> = Vec::new();
    text::push_text(&mut args, "/delete");
    text::push_text(&mut args, "/tn");
    text::push_text(&mut args, TASK_NAME);
    text::push_text(&mut args, "/f");
    assert(text::views(args@) == seq!["/delete"@, "/tn"@, TASK_NAME@, "/f"@]);
    Call { program: "schtasks", args }
}

/// Asks for the task.
pub fn query_task_call() -> (c: Call)
    ensures
        c.runs("schtasks"@, seq!["/query"@, "/tn"@, TASK_NAME@]),
{
    let mut args: Vec<String> = Vec::new();
    text::push_text(&mut args, "/query");
    text::push_text(&mut args, "/tn");
    text::push_text(&mut args, TASK_NAME);
    assert(text::views(args@) == seq!["/query"@, "/tn"@, TASK_NAME@]);
    Call { program: "schtasks", args }
}

/// The program in quotes.
pub open spec fn quoted(exe: Seq<char>) -> Seq<char> {
    "\""@ + exe + "\""@
}

fn quote(exe: &str) -> (r: String)
    ensures
        r@ == quoted(exe@),
{
    let mut r = "\"".to_owned();
    r.append(exe);
    r.append("\"");
    r
}

/// Adds the registry entry.
pub fn add_run_call(exe: &str) -> (c: Call)
    ensures
        c.runs(
            "reg"@,
            seq![
                "add"@,
                RUN_KEY@,
                "/v"@,
                TASK_NAME@,
                "/t"@,
                "REG_SZ"@,
                "/d"@,
                quoted(exe@),
                "/f"@,
            ],
        ),
{
    let mut args: Vec<String> = Vec::new();
    text::push_text(&mut args, "add");
    text::push_text(&mut args, RUN_KEY);
    text::push_text(&mut args, "/v");
    text::push_text(&mut args, TASK_NAME);
    text::push_text(&mut args, "/t");
    text::push_text(&mut args, "REG_SZ");
    text::push_text(&mut args, "/d");
    text::push_text(&mut args, quote(exe).as_str());
    text::push_text(&mut args, "/f");
    assert(text::views(args@) == seq![
        "add"@,
        RUN_KEY@,
        "/v"@,
        TASK_NAME@,
        "/t"@,
        "REG_SZ"@,
        "/d"@,
        quoted(exe@),
        "/f"@,
    ]);
    Call { program: "reg", args }
}

/// Removes the registry entry.
pub fn delete_run_call() -> (c: Call)
    ensures
        c.runs("reg"@, seq!["delete"@, RUN_KEY@, "/v"@, TASK_NAME@, "/f"@]),
{
    let mut args: Vec<String> = Vec::new();
    text::push_text(&mut args, "delete");
    text::push_text(&mut args, RUN_KEY);
    text::push_text(&mut args, "/v");
    text::push_text(&mut args, TASK_NAME);
    text::push_text(&mut args, "/f");
    assert(text::views(args@) == seq!["delete"@, RUN_KEY@, "/v"@, TASK_NAME@, "/f"@]);
    Call { program: "reg", args }
}

/// Asks for the registry entry.
pub fn query_run_call() -> (c: Call)
    ensures
        c.runs("reg"@, seq!["query"@, RUN_KEY@, "/v"@, TASK_NAME@]),
{
    let mut args: Vec<String> = Vec::new();
    text::push_text(&mut args, "query");
    text::push_text(&mut args, RUN_KEY);
    text::push_text(&mut args, "/v");
    text::push_text(&mut args, TASK_NAME);
    assert(text::views(args@) == seq!["query"@, RUN_KEY@, "/v"@, TASK_NAME@]);
    Call { program: "reg", args }
}

// ───────────────────────── installing ─────────────────────────

/// How far an installation has come.
pub enum Install {
    /// The task is to be written and registered.
    Schedule,
    /// The task stands: a registry entry would start the program twice and is removed.
    DropRun,
    /// There is no task: the registry entry is to be added.
    AddRun,
    /// It is over, with this to tell.
    Done(String),
}

pub open spec fn scheduled_text(exe: Seq<char>) -> Seq<char> {
    "autostart: 计划任务已注册 ("@ + exe + ")"@
}

pub open spec fn fallback_text(exe: Seq<char>) -> Seq<char> {
    "autostart: 计划任务失败, 已回退注册表 Run ("@ + quoted(exe) + ")"@
}

/// The next step of an installation, given whether the one before succeeded.
pub fn install(step: Install, ok: bool, exe: &str) -> (next: Install)
    ensures
        match step {
            Install::Schedule => next == if ok {
                Install::DropRun
            } else {
                Install::AddRun
            },
            Install::DropRun => next matches Install::Done(s) && s@ == scheduled_text(exe@),
            Install::AddRun => next matches Install::Done(s) && s@ == if ok {
                fallback_text(exe@)
            } else {
                "autostart: 注册失败(计划任务与注册表均未成功)"@
            },
            Install::Done(_) => next == step,
        },
{
    match step {
        Install::Schedule => if ok {
            Install::DropRun
        } else {
            Install::AddRun
        },
        Install::DropRun => {
            let mut s = "autostart: 计划任务已注册 (".to_owned();
            s.append(exe);
            s.append(")");
            Install::Done(s)
        },
        Install::AddRun => {
            if ok {
                let mut s = "autostart: 计划任务失败, 已回退注册表 Run (".to_owned();
                s.append(quote(exe).as_str());
                s.append(")");
                Install::Done(s)
            } else {
                Install::Done("autostart: 注册失败(计划任务与注册表均未成功)".to_owned())
            }
        },
        Install::Done(s) => Install::Done(s),
    }
}

/// What to tell of a removal, given whether the task and the registry entry were removed.
pub fn uninstall(task: bool, entry: bool) -> (r: String)
    ensures
        r@ == if task || entry {
            "autostart: 已移除"@
        } else {
            "autostart: 未找到需要移除的项"@
        },
{
    if task || entry {
        "autostart: 已移除".to_owned()
    } else {
        "autostart: 未找到需要移除的项".to_owned()
    }
}

/// Whether the program starts with the session, given whether the task and the registry
/// entry are there.
pub fn is_installed(task: bool, entry: bool) -> (r: bool)
    ensures
        r == (task || entry),
{
    task || entry
}

} // verus!
