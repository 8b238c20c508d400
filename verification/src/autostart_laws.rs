//! What holds of starting with the session.
use vstd::prelude::*;

use crate::autostart;
use crate::autostart::Call;
use crate::report_laws;
use crate::text;

verus! {

/// The account is the user's name, with the domain in front of it where both are known.
pub proof fn law_accounts_are_named_with_their_domain(user: Seq<char>, domain: Seq<char>)
    ensures
        user.len() > 0 && domain.len() > 0 ==> autostart::account(Some(user), Some(domain)) == domain
            + "\\"@ + user,
        domain.len() == 0 ==> autostart::account(Some(user), Some(domain)) == user,
        autostart::account(Some(user), None) == user,
        autostart::account(None, Some(domain)).len() == 0,
        autostart::account(None, None).len() == 0,
{
}

/// The task names the account, the program and its directory, each made harmless.
pub proof fn law_the_task_names_what_it_starts(user: Seq<char>, exe: Seq<char>, dir: Seq<char>)
    ensures
        ({
            let xml = autostart::task(user, exe, dir);
            &&& report_laws::holds(xml, autostart::escaped(user))
            &&& report_laws::holds(xml, autostart::XML_SETTINGS@ + autostart::escaped(exe)
                + autostart::XML_DIRECTORY@)
            &&& report_laws::holds(xml, autostart::XML_DIRECTORY@ + autostart::escaped(dir)
                + autostart::XML_END@)
        }),
{
    let (u, e, d) = (autostart::escaped(user), autostart::escaped(exe), autostart::escaped(dir));
    let (start, princ) = (autostart::XML_START@, autostart::XML_PRINCIPAL@);
    let (sets, below, end) = (
        autostart::XML_SETTINGS@,
        autostart::XML_DIRECTORY@,
        autostart::XML_END@,
    );
    let xml = autostart::task(user, exe, dir);
    let head = start + u + princ + u;
    assert(xml == start + u + (princ + u + sets + e + below + d + end));
    assert(xml == head + (sets + e + below) + (d + end));
    assert(xml == (head + sets + e) + (below + d + end) + Seq::<char>::empty());
}

/// Two bytes stand for a unit, the lower one first, behind the mark of the file.
pub proof fn law_units_are_stored_low_byte_first(s: Seq<u16>, i: int)
    requires
        0 <= i < s.len(),
    ensures
        autostart::little_endian(s).len() == 2 * s.len(),
        autostart::little_endian(s)[2 * i] + 256 * autostart::little_endian(s)[2 * i + 1] == s[i],
    decreases s.len(),
{
    let rest = s.drop_last();
    if s.len() > 1 {
        law_units_are_stored_low_byte_first(rest, if i < rest.len() {
            i
        } else {
            0
        });
    } else {
        reveal_with_fuel(autostart::little_endian, 2);
    }
}

/// The task is made, asked for and removed under one name, and so is the registry entry.
pub proof fn law_calls_speak_of_one_name(
    file: &str,
    exe: &str,
    make: Call,
    ask: Call,
    remove: Call,
    add: Call,
    look: Call,
    drop: Call,
)
    requires
        call_ensures(autostart::schedule_call, (file,), make),
        call_ensures(autostart::query_task_call, (), ask),
        call_ensures(autostart::unschedule_call, (), remove),
        call_ensures(autostart::add_run_call, (exe,), add),
        call_ensures(autostart::query_run_call, (), look),
        call_ensures(autostart::delete_run_call, (), drop),
    ensures
        make.program@ == "schtasks"@ && ask.program@ == "schtasks"@ && remove.program@
            == "schtasks"@,
        add.program@ == "reg"@ && look.program@ == "reg"@ && drop.program@ == "reg"@,
        text::views(make.args@).contains(file@),
        ({
            let (m, a, r) = (
                text::views(make.args@),
                text::views(ask.args@),
                text::views(remove.args@),
            );
            &&& m[0] == "/create"@ && a[0] == "/query"@ && r[0] == "/delete"@
            &&& m[2] == a[2] && a[2] == r[2]
        }),
        ({
            let (p, q, d) = (
                text::views(add.args@),
                text::views(look.args@),
                text::views(drop.args@),
            );
            &&& p[0] == "add"@ && q[0] == "query"@ && d[0] == "delete"@
            &&& p[1] == q[1] && q[1] == d[1]
            &&& p[3] == q[3] && q[3] == d[3]
            &&& p[7] == "\""@ + exe@ + "\""@
        }),
{
    assert(text::views(make.args@)[4] == file@);
}

} // verus!
