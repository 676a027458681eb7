//! What each operation does, as a list of steps: install, uninstall, and
//! starting, stopping or restarting units. In a dry run every step is a line
//! to report; otherwise steps change files or run `systemctl`.

use vstd::prelude::*;
use crate::command::{daemon_reload_command, systemctl_command, CommandLine};
use crate::names::{extension_of, stem_of, extension_text, strip_dot_extension, systemd_unit, unit_name_of};
use crate::paths::{basename, file_name, file_name_of, invalid_name_text, join_path, joined};
use crate::text::{join, join_strings, same_text, strings_view};
use crate::context::comma_space;
use crate::command::volume_remove_command;
use crate::menu::{confirmed, is_yes};
use crate::paths::{extension_of_path, path_extension};
use crate::text::{u64_text, nat_text};
use crate::volume::{parse_volume_name, volume_name_of};

verus! {

/// One thing an operation does.
#[derive(Debug)]
pub enum Step {
    /// Print a line.
    Say(String),
    /// Create a directory and its parents.
    CreateDir(String),
    /// Make `dest` a symlink to `src`, replacing what is there.
    Link { src: String, dest: String },
    /// Remove a file.
    RemoveFile(String),
    /// Run a command; when `must_succeed`, its failure ends the operation
    /// with an error, else the failure is ignored.
    Run { command: CommandLine, must_succeed: bool },
    /// End the operation with this error message.
    Fail(String),
}

/// A step by views.
pub enum StepView {
    Say(Seq<char>),
    CreateDir(Seq<char>),
    Link(Seq<char>, Seq<char>),
    RemoveFile(Seq<char>),
    Run((Seq<char>, Seq<Seq<char>>), bool),
    Fail(Seq<char>),
}

impl View for Step {
    type V = StepView;

    open spec fn view(&self) -> StepView {
        match self {
            Step::Say(s) => StepView::Say(s@),
            Step::CreateDir(d) => StepView::CreateDir(d@),
            Step::Link { src, dest } => StepView::Link(src@, dest@),
            Step::RemoveFile(f) => StepView::RemoveFile(f@),
            Step::Run { command, must_succeed } => StepView::Run(command@, *must_succeed),
            Step::Fail(m) => StepView::Fail(m@),
        }
    }
}

/// The views of a list of steps.
pub open spec fn steps_view(v: Seq<Step>) -> Seq<StepView> {
    v.map_values(|s: Step| s@)
}

/// Whether steps neither change files nor run anything: each one only
/// reports a line or ends with an error.
pub open spec fn only_reports(v: Seq<StepView>) -> bool {
    forall|i: int| 0 <= i < v.len() ==> (v[i] is Say || v[i] is Fail)
}

/// Reloading `systemd --user`.
pub open spec fn reload_step(dry: bool) -> StepView {
    if dry {
        StepView::Say("DRY-RUN systemctl --user daemon-reload"@)
    } else {
        StepView::Run(("systemctl"@, seq!["--user"@, "daemon-reload"@]), true)
    }
}

/// Creating the target directory before linking.
pub open spec fn prepare_step(dry: bool, target: Seq<char>) -> StepView {
    if dry {
        StepView::Say("DRY-RUN create "@ + target)
    } else {
        StepView::CreateDir(target)
    }
}

/// Linking one quadlet file, whose name is `name`, into the target directory.
pub open spec fn link_step(dry: bool, target: Seq<char>, src: Seq<char>, name: Seq<char>) -> StepView {
    let dest = joined(target, name);
    if dry {
        StepView::Say("DRY-RUN link "@ + src + " -> "@ + dest)
    } else {
        StepView::Link(src, dest)
    }
}

/// Linking each quadlet file in turn, then reloading; a file without a name
/// ends it with an error.
pub open spec fn link_steps(dry: bool, target: Seq<char>, files: Seq<Seq<char>>) -> Seq<StepView>
    decreases files.len(),
{
    if files.len() == 0 {
        seq![reload_step(dry)]
    } else {
        match file_name_of(files[0]) {
            None => seq![StepView::Fail(invalid_name_text(files[0]))],
            Some(n) => seq![link_step(dry, target, files[0], n)] + link_steps(
                dry,
                target,
                files.drop_first(),
            ),
        }
    }
}

fn say(line: String) -> (r: Step)
    ensures
        r@ == StepView::Say(line@),
{
    Step::Say(line)
}

fn text2(a: &str, b: &str) -> (r: String)
    ensures
        r@ == a@ + b@,
{
    let mut out = String::from_str(a);
    out.append(b);
    out
}

/// The step that reloads `systemd --user`.
pub fn reload(dry_run: bool) -> (r: Step)
    ensures
        r@ == reload_step(dry_run),
{
    if dry_run {
        say(String::from_str("DRY-RUN systemctl --user daemon-reload"))
    } else {
        Step::Run { command: daemon_reload_command(), must_succeed: true }
    }
}

/// The first step of an install: creating the target directory.
pub fn install_prepare(dry_run: bool, target_dir: &str) -> (r: Step)
    ensures
        r@ == prepare_step(dry_run, target_dir@),
{
    if dry_run {
        say(text2("DRY-RUN create ", target_dir))
    } else {
        Step::CreateDir(String::from_str(target_dir))
    }
}

proof fn lemma_steps_push(v: Seq<Step>, s: Step)
    ensures
        steps_view(v.push(s)) == steps_view(v).push(s@),
{
    assert(steps_view(v.push(s)) =~= steps_view(v).push(s@));
}

/// The rest of an install, once the quadlet files are known: link each into
/// the target directory, then reload.
pub fn install_links(dry_run: bool, target_dir: &str, files: &[String]) -> (r: Vec<Step>)
    ensures
        steps_view(r@) == link_steps(dry_run, target_dir@, strings_view(files@)),
{
    let ghost all = strings_view(files@);
    let n = files.len();
    let mut out: Vec<Step> = Vec::new();
    let mut i: usize = 0;
    assert(all.skip(0) =~= all);
    assert(steps_view(out@) =~= Seq::<StepView>::empty());
    while i < n
        invariant
            n == files@.len(),
            all == strings_view(files@),
            i <= n,
            steps_view(out@) + link_steps(dry_run, target_dir@, all.skip(i as int)) == link_steps(
                dry_run,
                target_dir@,
                all,
            ),
        decreases n - i,
    {
        let src = &files[i];
        let ghost rest = all.skip(i as int);
        assert(rest[0] == src@);
        assert(rest.drop_first() =~= all.skip(i + 1));
        let ghost before = out@;
        match basename(src.as_str()) {
            Err(e) => {
                let step = Step::Fail(e);
                out.push(step);
                proof {
                    lemma_steps_push(before, step);
                }
                return out;
            },
            Ok(name) => {
                let dest = join_path(target_dir, name.as_str());
                let step = if dry_run {
                    let mut line = String::from_str("DRY-RUN link ");
                    line.append(src.as_str());
                    line.append(" -> ");
                    line.append(dest.as_str());
                    say(line)
                } else {
                    Step::Link { src: src.clone(), dest }
                };
                out.push(step);
                proof {
                    lemma_steps_push(before, step);
                    assert(steps_view(before).push(step@) + link_steps(dry_run, target_dir@, all.skip(i + 1))
                        =~= steps_view(before) + (seq![step@] + link_steps(dry_run, target_dir@, all.skip(i + 1))));
                }
            },
        }
        i = i + 1;
    }
    let ghost before = out@;
    let step = reload(dry_run);
    out.push(step);
    proof {
        lemma_steps_push(before, step);
        assert(all.skip(n as int).len() == 0);
    }
    out
}

/// The unit file a unit is linked as: `<target>/<unit>.container`.
pub open spec fn unit_file_of(target: Seq<char>, unit: Seq<char>) -> Seq<char> {
    joined(target, unit + ".container"@)
}

/// The path a unit is linked as in the target directory.
pub fn unit_file(target_dir: &str, unit: &str) -> (r: String)
    ensures
        r@ == unit_file_of(target_dir@, unit@),
{
    let name = text2(unit, ".container");
    join_path(target_dir, name.as_str())
}

/// The path a quadlet file is linked as in the target directory, when it has a name.
pub fn link_path(target_dir: &str, file: &str) -> (r: Option<String>)
    ensures
        match r {
            Some(p) => file_name_of(file@) matches Some(n) && p@ == joined(target_dir@, n),
            None => file_name_of(file@) is None,
        },
{
    match file_name(file) {
        Some(n) => Some(join_path(target_dir, n.as_str())),
        None => None,
    }
}

/// Stopping a container unit before its link is removed; a failure is ignored.
pub open spec fn stop_before_remove_step(dry: bool, stem: Seq<char>) -> StepView {
    if dry {
        StepView::Say("DRY-RUN systemctl --user stop "@ + unit_name_of(stem))
    } else {
        StepView::Run(("systemctl"@, seq!["--user"@, "stop"@, unit_name_of(stem)]), false)
    }
}

/// Removing a link.
pub open spec fn remove_step(dry: bool, link: Seq<char>) -> StepView {
    if dry {
        StepView::Say("DRY-RUN remove "@ + link)
    } else {
        StepView::RemoveFile(link)
    }
}

/// Uninstalling one quadlet file whose link is present: stop it first when it
/// is a `.container`, then remove the link.
pub open spec fn unlink_steps(dry: bool, target: Seq<char>, name: Seq<char>) -> Seq<StepView> {
    let stop = if extension_text(name) == "container"@ {
        seq![stop_before_remove_step(dry, stem_of(name))]
    } else {
        Seq::empty()
    };
    stop + seq![remove_step(dry, joined(target, name))]
}

/// Uninstalling each quadlet file in turn (those whose link is not present are
/// passed over), then reloading; a file without a name ends it with an error.
pub open spec fn uninstall_steps(dry: bool, target: Seq<char>, files: Seq<Seq<char>>, present: Seq<bool>) -> Seq<StepView>
    decreases files.len(),
{
    if files.len() == 0 {
        seq![reload_step(dry)]
    } else {
        match file_name_of(files[0]) {
            None => seq![StepView::Fail(invalid_name_text(files[0]))],
            Some(n) => (if present[0] {
                unlink_steps(dry, target, n)
            } else {
                Seq::empty()
            }) + uninstall_steps(dry, target, files.drop_first(), present.drop_first()),
        }
    }
}

/// The steps of an uninstall, given for each quadlet file whether its link is
/// present in the target directory.
pub fn uninstall(dry_run: bool, target_dir: &str, files: &[String], present: &[bool]) -> (r: Vec<Step>)
    requires
        present@.len() == files@.len(),
    ensures
        steps_view(r@) == uninstall_steps(dry_run, target_dir@, strings_view(files@), present@),
{
    let ghost all = strings_view(files@);
    let n = files.len();
    let mut out: Vec<Step> = Vec::new();
    let mut i: usize = 0;
    assert(all.skip(0) =~= all);
    assert(present@.skip(0) =~= present@);
    assert(steps_view(out@) =~= Seq::<StepView>::empty());
    while i < n
        invariant
            n == files@.len(),
            n == present@.len(),
            all == strings_view(files@),
            i <= n,
            steps_view(out@) + uninstall_steps(dry_run, target_dir@, all.skip(i as int), present@.skip(i as int))
                == uninstall_steps(dry_run, target_dir@, all, present@),
        decreases n - i,
    {
        let src = &files[i];
        let ghost rest = all.skip(i as int);
        assert(rest[0] == src@);
        assert(rest.drop_first() =~= all.skip(i + 1));
        assert(present@.skip(i as int).drop_first() =~= present@.skip(i + 1));
        assert(present@.skip(i as int)[0] == present[i as int]);
        let ghost before = out@;
        match basename(src.as_str()) {
            Err(e) => {
                let step = Step::Fail(e);
                out.push(step);
                proof {
                    lemma_steps_push(before, step);
                }
                return out;
            },
            Ok(name) => {
                if present[i] {
                    let link = join_path(target_dir, name.as_str());
                    let ext = extension_of(name.as_str());
                    proof {
                        reveal_strlit("container");
                    }
                    if same_text(ext, "container") {
                        let stem = strip_dot_extension(name.as_str());
                        let step = if dry_run {
                            let unit = systemd_unit(stem.as_str());
                            say(text2("DRY-RUN systemctl --user stop ", unit.as_str()))
                        } else {
                            Step::Run { command: systemctl_command("stop", stem.as_str()), must_succeed: false }
                        };
                        let ghost b0 = out@;
                        out.push(step);
                        proof {
                            lemma_steps_push(b0, step);
                        }
                    }
                    let step = if dry_run {
                        say(text2("DRY-RUN remove ", link.as_str()))
                    } else {
                        Step::RemoveFile(link)
                    };
                    let ghost b1 = out@;
                    out.push(step);
                    proof {
                        lemma_steps_push(b1, step);
                        let u = unlink_steps(dry_run, target_dir@, name@);
                        assert(steps_view(out@) =~= steps_view(before) + u);
                    }
                } else {
                    assert(steps_view(out@) =~= steps_view(before) + Seq::<StepView>::empty());
                }
                proof {
                    let u = if present@[i as int] {
                        unlink_steps(dry_run, target_dir@, name@)
                    } else {
                        Seq::empty()
                    };
                    assert(steps_view(before) + (u + uninstall_steps(dry_run, target_dir@, all.skip(i + 1), present@.skip(i + 1)))
                        =~= (steps_view(before) + u) + uninstall_steps(dry_run, target_dir@, all.skip(i + 1), present@.skip(i + 1)));
                }
            },
        }
        i = i + 1;
    }
    let ghost before = out@;
    let step = reload(dry_run);
    out.push(step);
    proof {
        lemma_steps_push(before, step);
        assert(all.skip(n as int).len() == 0);
    }
    out
}

/// Running `systemctl --user <action>` for each unit: in a dry run each call is
/// reported; otherwise it is run for each linked unit, and the others are
/// passed over.
pub open spec fn unit_steps(dry: bool, action: Seq<char>, units: Seq<Seq<char>>, linked: Seq<bool>) -> Seq<StepView>
    decreases units.len(),
{
    if units.len() == 0 {
        Seq::empty()
    } else {
        let u = units[0];
        let here = if dry {
            seq![StepView::Say("DRY-RUN systemctl --user "@ + action + " "@ + unit_name_of(u))]
        } else if linked[0] {
            seq![StepView::Run(("systemctl"@, seq!["--user"@, action, unit_name_of(u)]), true)]
        } else {
            Seq::empty()
        };
        here + unit_steps(dry, action, units.drop_first(), linked.drop_first())
    }
}

/// The steps of starting, stopping or restarting units, given for each unit
/// whether it is linked in the target directory.
pub fn unit_action(dry_run: bool, action: &str, units: &[String], linked: &[bool]) -> (r: Vec<Step>)
    requires
        linked@.len() == units@.len(),
    ensures
        steps_view(r@) == unit_steps(dry_run, action@, strings_view(units@), linked@),
{
    let ghost all = strings_view(units@);
    let n = units.len();
    let mut out: Vec<Step> = Vec::new();
    let mut i: usize = 0;
    assert(all.skip(0) =~= all);
    assert(linked@.skip(0) =~= linked@);
    assert(steps_view(out@) =~= Seq::<StepView>::empty());
    while i < n
        invariant
            n == units@.len(),
            n == linked@.len(),
            all == strings_view(units@),
            i <= n,
            steps_view(out@) + unit_steps(dry_run, action@, all.skip(i as int), linked@.skip(i as int))
                == unit_steps(dry_run, action@, all, linked@),
        decreases n - i,
    {
        let u = &units[i];
        let ghost rest = all.skip(i as int);
        assert(rest[0] == u@);
        assert(rest.drop_first() =~= all.skip(i + 1));
        assert(linked@.skip(i as int).drop_first() =~= linked@.skip(i + 1));
        assert(linked@.skip(i as int)[0] == linked[i as int]);
        let ghost before = out@;
        if dry_run {
            let unit = systemd_unit(u.as_str());
            let mut line = String::from_str("DRY-RUN systemctl --user ");
            line.append(action);
            line.append(" ");
            line.append(unit.as_str());
            let step = say(line);
            out.push(step);
            proof {
                lemma_steps_push(before, step);
            }
        } else if linked[i] {
            let step = Step::Run { command: systemctl_command(action, u.as_str()), must_succeed: true };
            out.push(step);
            proof {
                lemma_steps_push(before, step);
            }
        }
        proof {
            let here = if dry_run {
                seq![StepView::Say("DRY-RUN systemctl --user "@ + action@ + " "@ + unit_name_of(u@))]
            } else if linked@[i as int] {
                seq![StepView::Run(("systemctl"@, seq!["--user"@, action@, unit_name_of(u@)]), true)]
            } else {
                Seq::<StepView>::empty()
            };
            assert(steps_view(out@) =~= steps_view(before) + here);
            assert(steps_view(before) + (here + unit_steps(dry_run, action@, all.skip(i + 1), linked@.skip(i + 1)))
                =~= (steps_view(before) + here) + unit_steps(dry_run, action@, all.skip(i + 1), linked@.skip(i + 1)));
        }
        i = i + 1;
    }
    assert(all.skip(n as int).len() == 0);
    assert(steps_view(out@) + Seq::<StepView>::empty() =~= steps_view(out@));
    out
}

/// The units that are not linked, in order.
pub open spec fn missing_units(units: Seq<Seq<char>>, linked: Seq<bool>) -> Seq<Seq<char>>
    decreases units.len(),
{
    if units.len() == 0 {
        Seq::empty()
    } else {
        let rest = missing_units(units.drop_last(), linked.drop_last());
        if linked.last() {
            rest
        } else {
            rest.push(units.last())
        }
    }
}

/// The units whose link is missing, given for each whether it is linked.
pub fn missing_targets(units: &[String], linked: &[bool]) -> (r: Vec<String>)
    requires
        linked@.len() == units@.len(),
    ensures
        strings_view(r@) == missing_units(strings_view(units@), linked@),
{
    let ghost all = strings_view(units@);
    let n = units.len();
    let mut out: Vec<String> = Vec::new();
    let mut i: usize = 0;
    assert(strings_view(out@) =~= missing_units(all.take(0), linked@.take(0)));
    while i < n
        invariant
            n == units@.len(),
            n == linked@.len(),
            all == strings_view(units@),
            i <= n,
            strings_view(out@) == missing_units(all.take(i as int), linked@.take(i as int)),
        decreases n - i,
    {
        assert(all.take(i + 1).drop_last() =~= all.take(i as int));
        assert(linked@.take(i + 1).drop_last() =~= linked@.take(i as int));
        assert(all.take(i + 1).last() == units@[i as int]@);
        if !linked[i] {
            out.push(units[i].clone());
            assert(strings_view(out@) =~= missing_units(all.take(i + 1), linked@.take(i + 1)));
        }
        i = i + 1;
    }
    assert(all.take(n as int) =~= all);
    assert(linked@.take(n as int) =~= linked@);
    out
}

/// What a dry-run start reports before installing the missing links.
pub open spec fn missing_notice_text(missing: Seq<Seq<char>>) -> Seq<char> {
    "DRY-RUN install missing target links for "@ + join(missing, comma_space())
}

/// The line a dry-run start reports when links are missing.
pub fn missing_notice(missing: &[String]) -> (r: String)
    ensures
        r@ == missing_notice_text(strings_view(missing@)),
{
    proof {
        reveal_strlit(", ");
        assert(", "@ =~= comma_space());
    }
    let names = join_strings(missing, ", ");
    text2("DRY-RUN install missing target links for ", names.as_str())
}

/// Before starting: when some links are missing, install first, after
/// reporting which ones in a dry run; else nothing.
pub open spec fn install_first_steps(dry: bool, missing: Seq<Seq<char>>) -> Option<Seq<StepView>> {
    if missing.len() == 0 {
        None
    } else if dry {
        Some(seq![StepView::Say(missing_notice_text(missing))])
    } else {
        Some(Seq::empty())
    }
}

/// Whether starting must install first (`Some`, with what to do before the
/// install), given the units whose links are missing.
pub fn install_first(dry_run: bool, missing: &[String]) -> (r: Option<Vec<Step>>)
    ensures
        match r {
            Some(v) => install_first_steps(dry_run, strings_view(missing@)) == Some(steps_view(v@)),
            None => install_first_steps(dry_run, strings_view(missing@)) is None,
        },
{
    if missing.len() == 0 {
        return None;
    }
    let mut out: Vec<Step> = Vec::new();
    if dry_run {
        out.push(say(missing_notice(missing)));
    }
    assert(steps_view(out@) =~= install_first_steps(dry_run, strings_view(missing@)).unwrap());
    Some(out)
}

/// Whether a path names a `.volume` quadlet.
pub open spec fn is_volume_path(p: Seq<char>) -> bool {
    path_extension(p) == Some("volume"@)
}

/// The `.volume` files among quadlet files, in order.
pub open spec fn volume_paths(files: Seq<Seq<char>>) -> Seq<Seq<char>>
    decreases files.len(),
{
    if files.len() == 0 {
        Seq::empty()
    } else {
        let rest = volume_paths(files.drop_last());
        if is_volume_path(files.last()) {
            rest.push(files.last())
        } else {
            rest
        }
    }
}

/// The `.volume` files among quadlet files.
pub fn volume_files(files: &[String]) -> (r: Vec<String>)
    ensures
        strings_view(r@) == volume_paths(strings_view(files@)),
{
    let ghost all = strings_view(files@);
    let n = files.len();
    let mut out: Vec<String> = Vec::new();
    let mut i: usize = 0;
    assert(strings_view(out@) =~= volume_paths(all.take(0)));
    while i < n
        invariant
            n == files@.len(),
            all == strings_view(files@),
            i <= n,
            strings_view(out@) == volume_paths(all.take(i as int)),
        decreases n - i,
    {
        assert(all.take(i + 1).drop_last() =~= all.take(i as int));
        assert(all.take(i + 1).last() == files@[i as int]@);
        let is_volume = match extension_of_path(files[i].as_str()) {
            Some(e) => {
                proof {
                    reveal_strlit("volume");
                }
                same_text(e.as_str(), "volume")
            },
            None => false,
        };
        if is_volume {
            out.push(files[i].clone());
            assert(strings_view(out@) =~= volume_paths(all.take(i + 1)));
        }
        i = i + 1;
    }
    assert(all.take(n as int) =~= all);
    out
}

/// The volume names that file contents declare, in order; contents that
/// declare none are passed over.
pub open spec fn declared_names(contents: Seq<Seq<char>>) -> Seq<Seq<char>>
    decreases contents.len(),
{
    if contents.len() == 0 {
        Seq::empty()
    } else {
        let rest = declared_names(contents.drop_last());
        match volume_name_of(contents.last()) {
            Some(v) => rest.push(v),
            None => rest,
        }
    }
}

/// The volume names declared in the contents of `.volume` files.
pub fn declared_volumes(contents: &[String]) -> (r: Vec<String>)
    ensures
        strings_view(r@) == declared_names(strings_view(contents@)),
{
    let ghost all = strings_view(contents@);
    let n = contents.len();
    let mut out: Vec<String> = Vec::new();
    let mut i: usize = 0;
    assert(strings_view(out@) =~= declared_names(all.take(0)));
    while i < n
        invariant
            n == contents@.len(),
            all == strings_view(contents@),
            i <= n,
            strings_view(out@) == declared_names(all.take(i as int)),
        decreases n - i,
    {
        assert(all.take(i + 1).drop_last() =~= all.take(i as int));
        assert(all.take(i + 1).last() == contents@[i as int]@);
        match parse_volume_name(contents[i].as_str()) {
            Some(v) => {
                out.push(v);
                assert(strings_view(out@) =~= declared_names(all.take(i + 1)));
            },
            None => {},
        }
        i = i + 1;
    }
    assert(all.take(n as int) =~= all);
    out
}

/// Removing each volume with `podman volume rm -f`; a failure ends it.
pub open spec fn removal_steps(names: Seq<Seq<char>>) -> Seq<StepView> {
    names.map_values(|v: Seq<char>| StepView::Run(("podman"@, seq!["volume"@, "rm"@, "-f"@, v]), true))
}

/// The lines of the confirmation prompt: how many volumes, then each name
/// indented, then the question (printed without a line end).
pub open spec fn prompt_text(names: Seq<Seq<char>>) -> Seq<char> {
    "This will remove "@ + nat_text(names.len()) + " podman volume(s):\n"@ + indented_lines(names)
        + "Continue? [y/N]: "@
}

/// Each name on a line of its own, after two spaces.
pub open spec fn indented_lines(names: Seq<Seq<char>>) -> Seq<char>
    decreases names.len(),
{
    if names.len() == 0 {
        Seq::empty()
    } else {
        indented_lines(names.drop_last()) + "  "@ + names.last() + "\n"@
    }
}

/// What cleaning volumes does next, once the declared names are known.
#[derive(Debug)]
pub enum CleanVolumes {
    /// Print these lines; nothing is removed.
    Report(Vec<String>),
    /// Print the prompt and read an answer; only a yes goes on to the steps.
    AskFirst { prompt: String, steps: Vec<Step> },
    /// Carry out these steps.
    Remove(Vec<Step>),
}

/// What cleaning volumes does next, by views.
pub enum CleanView {
    Report(Seq<Seq<char>>),
    AskFirst(Seq<char>, Seq<StepView>),
    Remove(Seq<StepView>),
}

impl View for CleanVolumes {
    type V = CleanView;

    open spec fn view(&self) -> CleanView {
        match self {
            CleanVolumes::Report(lines) => CleanView::Report(strings_view(lines@)),
            CleanVolumes::AskFirst { prompt, steps } => CleanView::AskFirst(prompt@, steps_view(steps@)),
            CleanVolumes::Remove(steps) => CleanView::Remove(steps_view(steps@)),
        }
    }
}

/// Cleaning volumes: with none declared, say so; in a dry run, report each
/// removal; without `--yes`, ask before removing; else remove them.
pub open spec fn clean_plan(dry: bool, yes: bool, names: Seq<Seq<char>>) -> CleanView {
    if names.len() == 0 {
        CleanView::Report(seq!["No podman volumes declared in .volume files"@])
    } else if dry {
        CleanView::Report(names.map_values(|v: Seq<char>| "DRY-RUN podman volume rm -f "@ + v))
    } else if !yes {
        CleanView::AskFirst(prompt_text(names), removal_steps(names))
    } else {
        CleanView::Remove(removal_steps(names))
    }
}

fn removals(names: &[String]) -> (r: Vec<Step>)
    ensures
        steps_view(r@) == removal_steps(strings_view(names@)),
{
    let n = names.len();
    let mut out: Vec<Step> = Vec::new();
    let mut i: usize = 0;
    while i < n
        invariant
            n == names@.len(),
            i <= n,
            steps_view(out@) == removal_steps(strings_view(names@).take(i as int)),
        decreases n - i,
    {
        let step = Step::Run { command: volume_remove_command(names[i].as_str()), must_succeed: true };
        let ghost before = out@;
        out.push(step);
        proof {
            lemma_steps_push(before, step);
            assert(strings_view(names@).take(i + 1) =~= strings_view(names@).take(i as int).push(names@[i as int]@));
            assert(removal_steps(strings_view(names@).take(i + 1)) =~= removal_steps(strings_view(names@).take(i as int)).push(step@));
        }
        i = i + 1;
    }
    assert(strings_view(names@).take(n as int) =~= strings_view(names@));
    out
}

/// The confirmation prompt for removing volumes.
pub fn clean_prompt(names: &[String]) -> (r: String)
    ensures
        r@ == prompt_text(strings_view(names@)),
{
    let mut out = String::from_str("This will remove ");
    let count = u64_text(names.len() as u64);
    out.append(count.as_str());
    out.append(" podman volume(s):\n");
    let ghost head = out@;
    let n = names.len();
    let mut i: usize = 0;
    assert(out@ =~= head + indented_lines(strings_view(names@).take(0)));
    while i < n
        invariant
            n == names@.len(),
            i <= n,
            out@ == head + indented_lines(strings_view(names@).take(i as int)),
        decreases n - i,
    {
        out.append("  ");
        out.append(names[i].as_str());
        out.append("\n");
        proof {
            let t = strings_view(names@).take(i + 1);
            assert(t.drop_last() =~= strings_view(names@).take(i as int));
            assert(t.last() == names@[i as int]@);
            assert(out@ =~= head + indented_lines(t));
        }
        i = i + 1;
    }
    assert(strings_view(names@).take(n as int) =~= strings_view(names@));
    out.append("Continue? [y/N]: ");
    out
}

/// Decides how to clean the declared volumes.
pub fn clean_volumes(dry_run: bool, yes: bool, names: &[String]) -> (r: CleanVolumes)
    ensures
        r@ == clean_plan(dry_run, yes, strings_view(names@)),
{
    let n = names.len();
    if n == 0 {
        let mut lines: Vec<String> = Vec::new();
        lines.push(String::from_str("No podman volumes declared in .volume files"));
        assert(strings_view(lines@) =~= seq!["No podman volumes declared in .volume files"@]);
        return CleanVolumes::Report(lines);
    }
    if dry_run {
        let mut lines: Vec<String> = Vec::new();
        let mut i: usize = 0;
        while i < n
            invariant
                n == names@.len(),
                i <= n,
                lines@.len() == i,
                forall|j: int| 0 <= j < i ==> #[trigger] lines@[j]@ == "DRY-RUN podman volume rm -f "@ + names@[j]@,
            decreases n - i,
        {
            lines.push(text2("DRY-RUN podman volume rm -f ", names[i].as_str()));
            i = i + 1;
        }
        assert(strings_view(lines@) =~= strings_view(names@).map_values(
            |v: Seq<char>| "DRY-RUN podman volume rm -f "@ + v,
        ));
        return CleanVolumes::Report(lines);
    }
    if !yes {
        return CleanVolumes::AskFirst { prompt: clean_prompt(names), steps: removals(names) };
    }
    CleanVolumes::Remove(removals(names))
}

/// What follows the confirmation prompt: the removals after a yes, else
/// "Aborted".
pub open spec fn after_answer_steps(answer: Seq<char>, steps: Seq<StepView>) -> Seq<StepView> {
    if is_yes(answer) {
        steps
    } else {
        seq![StepView::Say("Aborted"@)]
    }
}

/// The steps that follow an answer to the confirmation prompt.
pub fn after_answer(answer: &str, steps: Vec<Step>) -> (r: Vec<Step>)
    ensures
        steps_view(r@) == after_answer_steps(answer@, steps_view(steps@)),
{
    if confirmed(answer) {
        steps
    } else {
        let mut out: Vec<Step> = Vec::new();
        out.push(say(String::from_str("Aborted")));
        assert(steps_view(out@) =~= seq![StepView::Say("Aborted"@)]);
        out
    }
}

} // verus!
