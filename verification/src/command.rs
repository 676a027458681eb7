//! External commands: what is run for each operation, how a command line is
//! shown, and how a failure is reported.

use vstd::prelude::*;
use vstd::utf8::{decode_utf8, valid_utf8};
use crate::names::{systemd_unit, unit_name_of};
use crate::text::{
    i64_text, int_text, join, join_strs, same_text, strings_view, texts_view, trim, trim_str,
};

verus! {

/// What `String::from_utf8_lossy` makes of some bytes.
pub uninterp spec fn lossy_text(bytes: Seq<u8>) -> Seq<char>;

/// Calls `String::from_utf8_lossy`. Claimed: the result is a function of the
/// bytes alone, and valid UTF-8 is decoded unchanged (the documentation says
/// a valid slice is returned as it is); what replaces invalid sequences is
/// left to the name.
#[verifier::external_body]
fn decode_lossy(bytes: &[u8]) -> (r: String)
    ensures
        r@ == lossy_text(bytes@),
        valid_utf8(bytes@) ==> r@ == decode_utf8(bytes@),
{
    String::from_utf8_lossy(bytes).into_owned()
}

/// A program and its arguments.
#[derive(Debug)]
pub struct CommandLine {
    /// The program to run.
    pub program: String,
    /// Its arguments.
    pub args: Vec<String>,
}

impl View for CommandLine {
    type V = (Seq<char>, Seq<Seq<char>>);

    open spec fn view(&self) -> (Seq<char>, Seq<Seq<char>>) {
        (self.program@, strings_view(self.args@))
    }
}

/// A command line as it is shown: the program, then each argument after a space.
pub open spec fn command_text(cmd: Seq<char>, args: Seq<Seq<char>>) -> Seq<char> {
    if args.len() == 0 {
        cmd
    } else {
        cmd + seq![' '] + join(args, seq![' '])
    }
}

/// Shows a command line: the program, then each argument after a space.
pub fn format_command(cmd: &str, args: &[&str]) -> (r: String)
    ensures
        r@ == command_text(cmd@, texts_view(args@)),
{
    if args.len() == 0 {
        String::from_str(cmd)
    } else {
        proof {
            reveal_strlit(" ");
            assert(" "@ =~= seq![' ']);
        }
        let mut out = String::from_str(cmd);
        out.append(" ");
        let rest = join_strs(args, " ");
        out.append(rest.as_str());
        assert(out@ =~= cmd@ + seq![' '] + join(texts_view(args@), seq![' ']));
        out
    }
}

/// The arguments of a command line as text slices.
pub fn arg_strs(args: &Vec<String>) -> (r: Vec<&str>)
    ensures
        texts_view(r@) == strings_view(args@),
{
    let mut out: Vec<&str> = Vec::new();
    let n = args.len();
    let mut i: usize = 0;
    while i < n
        invariant
            n == args@.len(),
            i <= n,
            texts_view(out@) == strings_view(args@.take(i as int)),
            out@.len() == i,
        decreases n - i,
    {
        let ghost before = out@;
        out.push(args[i].as_str());
        assert(args@.take(i + 1) =~= args@.take(i as int).push(args@[i as int]));
        assert(out@ =~= before.push(out@[i as int]));
        assert forall|j: int| 0 <= j <= i implies texts_view(out@)[j] == strings_view(args@.take(i + 1))[j] by {
            if j < i {
                assert(texts_view(before)[j] == strings_view(args@.take(i as int))[j]);
            }
        }
        assert(texts_view(out@) =~= strings_view(args@.take(i + 1)));
        i = i + 1;
    }
    assert(args@.take(n as int) =~= args@);
    out
}

impl CommandLine {
    /// The command line as it is shown.
    pub fn display(&self) -> (r: String)
        ensures
            r@ == command_text(self@.0, self@.1),
    {
        let args = arg_strs(&self.args);
        format_command(self.program.as_str(), args.as_slice())
    }
}

fn strings_of(parts: &[&str]) -> (r: Vec<String>)
    ensures
        strings_view(r@) == texts_view(parts@),
{
    let mut out: Vec<String> = Vec::new();
    let n = parts.len();
    let mut i: usize = 0;
    while i < n
        invariant
            n == parts@.len(),
            i <= n,
            strings_view(out@) == texts_view(parts@.take(i as int)),
            out@.len() == i,
        decreases n - i,
    {
        let ghost before = out@;
        out.push(String::from_str(parts[i]));
        assert(parts@.take(i + 1) =~= parts@.take(i as int).push(parts@[i as int]));
        assert(out@ =~= before.push(out@[i as int]));
        assert forall|j: int| 0 <= j <= i implies strings_view(out@)[j] == texts_view(parts@.take(i + 1))[j] by {
            if j < i {
                assert(strings_view(before)[j] == texts_view(parts@.take(i as int))[j]);
            }
        }
        assert(strings_view(out@) =~= texts_view(parts@.take(i + 1)));
        i = i + 1;
    }
    assert(parts@.take(n as int) =~= parts@);
    out
}

fn command_line(program: &str, parts: &[&str]) -> (r: CommandLine)
    ensures
        r@ == (program@, texts_view(parts@)),
{
    CommandLine { program: String::from_str(program), args: strings_of(parts) }
}

/// `systemctl --user daemon-reload`.
pub fn daemon_reload_command() -> (r: CommandLine)
    ensures
        r@ == ("systemctl"@, seq!["--user"@, "daemon-reload"@]),
{
    let parts = ["--user", "daemon-reload"];
    let r = command_line("systemctl", parts.as_slice());
    assert(texts_view(parts@) =~= seq!["--user"@, "daemon-reload"@]);
    r
}

/// `systemctl --user <action> <unit>`, with the unit named as `systemd_unit` names it.
pub fn systemctl_command(action: &str, unit: &str) -> (r: CommandLine)
    ensures
        r@ == ("systemctl"@, seq!["--user"@, action@, unit_name_of(unit@)]),
{
    let u = systemd_unit(unit);
    let parts = ["--user", action, u.as_str()];
    let r = command_line("systemctl", parts.as_slice());
    assert(texts_view(parts@) =~= seq!["--user"@, action@, unit_name_of(unit@)]);
    r
}

/// `systemctl --user is-active <unit>`.
pub fn is_active_command(unit: &str) -> (r: CommandLine)
    ensures
        r@ == ("systemctl"@, seq!["--user"@, "is-active"@, unit_name_of(unit@)]),
{
    systemctl_command("is-active", unit)
}

/// The journal of a service in follow mode: `journalctl --user -xsfu <unit>`
/// with the extra metadata, else `journalctl --user -u <unit> -f --since "1 hour ago"`.
pub fn logs_command(service: &str, extra: bool) -> (r: CommandLine)
    ensures
        extra ==> r@ == ("journalctl"@, seq!["--user"@, "-xsfu"@, unit_name_of(service@)]),
        !extra ==> r@ == (
            "journalctl"@,
            seq!["--user"@, "-u"@, unit_name_of(service@), "-f"@, "--since"@, "1 hour ago"@],
        ),
{
    let u = systemd_unit(service);
    if extra {
        let parts = ["--user", "-xsfu", u.as_str()];
        let r = command_line("journalctl", parts.as_slice());
        assert(texts_view(parts@) =~= seq!["--user"@, "-xsfu"@, unit_name_of(service@)]);
        r
    } else {
        let parts = ["--user", "-u", u.as_str(), "-f", "--since", "1 hour ago"];
        let r = command_line("journalctl", parts.as_slice());
        assert(texts_view(parts@) =~= seq![
            "--user"@,
            "-u"@,
            unit_name_of(service@),
            "-f"@,
            "--since"@,
            "1 hour ago"@,
        ]);
        r
    }
}

/// The last 80 journal lines of the past hour, without a pager.
pub fn recent_logs_command(service: &str) -> (r: CommandLine)
    ensures
        r@ == (
            "journalctl"@,
            seq![
                "--user"@,
                "-u"@,
                unit_name_of(service@),
                "--since"@,
                "1 hour ago"@,
                "-n"@,
                "80"@,
                "--no-pager"@,
            ],
        ),
{
    let u = systemd_unit(service);
    let parts = ["--user", "-u", u.as_str(), "--since", "1 hour ago", "-n", "80", "--no-pager"];
    let r = command_line("journalctl", parts.as_slice());
    assert(texts_view(parts@) =~= seq![
        "--user"@,
        "-u"@,
        unit_name_of(service@),
        "--since"@,
        "1 hour ago"@,
        "-n"@,
        "80"@,
        "--no-pager"@,
    ]);
    r
}

/// `/usr/lib/podman/quadlet -dryrun -user <user> <quadlet>`.
pub fn quadlet_check_command(user: &str, quadlet: &str) -> (r: CommandLine)
    ensures
        r@ == ("/usr/lib/podman/quadlet"@, seq!["-dryrun"@, "-user"@, user@, quadlet@]),
{
    let parts = ["-dryrun", "-user", user, quadlet];
    let r = command_line("/usr/lib/podman/quadlet", parts.as_slice());
    assert(texts_view(parts@) =~= seq!["-dryrun"@, "-user"@, user@, quadlet@]);
    r
}

/// `podman volume rm -f <name>`.
pub fn volume_remove_command(name: &str) -> (r: CommandLine)
    ensures
        r@ == ("podman"@, seq!["volume"@, "rm"@, "-f"@, name@]),
{
    let parts = ["volume", "rm", "-f", name];
    let r = command_line("podman", parts.as_slice());
    assert(texts_view(parts@) =~= seq!["volume"@, "rm"@, "-f"@, name@]);
    r
}

/// How an exit status is shown: its code, or "terminated by signal" when it has none.
pub open spec fn exit_status_text(code: Option<i32>) -> Seq<char> {
    match code {
        Some(c) => int_text(c as int),
        None => "terminated by signal"@,
    }
}

/// Shows an exit status by its code.
pub fn exit_status_display(code: Option<i32>) -> (r: String)
    ensures
        r@ == exit_status_text(code),
{
    match code {
        Some(c) => i64_text(c as i64),
        None => String::from_str("terminated by signal"),
    }
}

/// The message of a failed command: the command line and exit status, then
/// what it wrote to standard error, trimmed, when that is not empty.
pub open spec fn failure_text(
    cmd: Seq<char>,
    args: Seq<Seq<char>>,
    code: Option<i32>,
    stderr: Seq<char>,
) -> Seq<char> {
    let head = "command failed: "@ + command_text(cmd, args) + " (exit status: "@
        + exit_status_text(code) + ")"@;
    let err = trim(stderr);
    if err.len() == 0 {
        head
    } else {
        head + "\nstderr:\n"@ + err
    }
}

/// The message of a failed command, from the bytes it wrote to standard error.
pub fn command_failure_message(cmd: &str, args: &[&str], code: Option<i32>, stderr: &[u8]) -> (r: String)
    ensures
        r@ == failure_text(cmd@, texts_view(args@), code, lossy_text(stderr@)),
        valid_utf8(stderr@) ==> r@ == failure_text(cmd@, texts_view(args@), code, decode_utf8(stderr@)),
{
    let text = decode_lossy(stderr);
    let err = trim_str(text.as_str());
    let mut out = String::from_str("command failed: ");
    let shown = format_command(cmd, args);
    out.append(shown.as_str());
    out.append(" (exit status: ");
    let status = exit_status_display(code);
    out.append(status.as_str());
    out.append(")");
    if err.unicode_len() > 0 {
        out.append("\nstderr:\n");
        out.append(err);
    }
    out
}

/// The message of a failed command that wrote nothing worth showing.
pub fn status_failure_message(cmd: &str, args: &[&str], code: Option<i32>) -> (r: String)
    ensures
        r@ == failure_text(cmd@, texts_view(args@), code, Seq::empty()),
{
    let mut out = String::from_str("command failed: ");
    let shown = format_command(cmd, args);
    out.append(shown.as_str());
    out.append(" (exit status: ");
    let status = exit_status_display(code);
    out.append(status.as_str());
    out.append(")");
    proof {
        assert(trim(Seq::<char>::empty()) =~= Seq::<char>::empty());
    }
    out
}

/// Whether the output of `systemctl --user is-active` says the unit is active:
/// after trimming it reads "active".
pub fn is_active_output(stdout: &[u8]) -> (r: bool)
    ensures
        r == (trim(lossy_text(stdout@)) == "active"@),
        valid_utf8(stdout@) ==> r == (trim(decode_utf8(stdout@)) == "active"@),
{
    let text = decode_lossy(stdout);
    same_text(trim_str(text.as_str()), "active")
}

} // verus!
