//! Properties of the library as a whole.

use vstd::prelude::*;
use crate::command::command_text;
use crate::menu::{
    action_choice, is_yes, is_digit, is_quit_word, menu_choice, row_position, selection_of, usize_value,
    unsigned_digits, MenuChoice, all_digits,
};
use crate::plan::{
    after_answer_steps, clean_plan, link_steps, only_reports, prepare_step, reload_step,
    removal_steps, uninstall_steps, unit_steps, unlink_steps, CleanView, StepView,
    stop_before_remove_step, remove_step, missing_units,
};
use crate::names::extension_text;
use crate::status::{is_running, summary_text, tally, ServiceRow};
use crate::names::unit_name_of;
use crate::paths::file_name_of;
use crate::text::{first_word, is_white, join, lemma_first_word, nat_text, trim, words};

verus! {

proof fn lemma_reports_concat(a: Seq<StepView>, b: Seq<StepView>)
    requires
        only_reports(a),
        only_reports(b),
    ensures
        only_reports(a + b),
{
    assert forall|i: int| 0 <= i < (a + b).len() implies ((a + b)[i] is Say || (a + b)[i] is Fail) by {
        if i < a.len() {
            assert((a + b)[i] == a[i]);
        } else {
            assert((a + b)[i] == b[i - a.len()]);
        }
    }
}

proof fn lemma_dry_links(target: Seq<char>, files: Seq<Seq<char>>)
    ensures
        only_reports(link_steps(true, target, files)),
    decreases files.len(),
{
    if files.len() > 0 {
        if let Some(n) = file_name_of(files[0]) {
            lemma_dry_links(target, files.drop_first());
            lemma_reports_concat(seq![crate::plan::link_step(true, target, files[0], n)], link_steps(true, target, files.drop_first()));
        }
    }
}

proof fn lemma_dry_uninstall(target: Seq<char>, files: Seq<Seq<char>>, present: Seq<bool>)
    ensures
        only_reports(uninstall_steps(true, target, files, present)),
    decreases files.len(),
{
    if files.len() > 0 {
        if let Some(n) = file_name_of(files[0]) {
            lemma_dry_uninstall(target, files.drop_first(), present.drop_first());
            let stop: Seq<StepView> = if extension_text(n) == "container"@ {
                seq![stop_before_remove_step(true, crate::names::stem_of(n))]
            } else {
                Seq::empty()
            };
            lemma_reports_concat(stop, seq![remove_step(true, crate::paths::joined(target, n))]);
            let here: Seq<StepView> = if present[0] {
                unlink_steps(true, target, n)
            } else {
                Seq::empty()
            };
            lemma_reports_concat(here, uninstall_steps(true, target, files.drop_first(), present.drop_first()));
        }
    }
}

proof fn lemma_dry_units(action: Seq<char>, units: Seq<Seq<char>>, linked: Seq<bool>)
    ensures
        only_reports(unit_steps(true, action, units, linked)),
    decreases units.len(),
{
    if units.len() > 0 {
        lemma_dry_units(action, units.drop_first(), linked.drop_first());
        lemma_reports_concat(
            seq![StepView::Say("DRY-RUN systemctl --user "@ + action + " "@ + crate::names::unit_name_of(units[0]))],
            unit_steps(true, action, units.drop_first(), linked.drop_first()),
        );
    }
}

/// A dry run changes no file and runs no command: creating the target
/// directory, linking, reloading, uninstalling and starting, stopping or
/// restarting units are all only reported, and cleaning volumes only prints
/// lines.
pub proof fn dry_run_only_reports(
    target: Seq<char>,
    files: Seq<Seq<char>>,
    present: Seq<bool>,
    action: Seq<char>,
    units: Seq<Seq<char>>,
    linked: Seq<bool>,
    yes: bool,
    names: Seq<Seq<char>>,
)
    ensures
        prepare_step(true, target) is Say,
        reload_step(true) is Say,
        only_reports(link_steps(true, target, files)),
        only_reports(uninstall_steps(true, target, files, present)),
        only_reports(unit_steps(true, action, units, linked)),
        clean_plan(true, yes, names) is Report,
{
    lemma_dry_links(target, files);
    lemma_dry_uninstall(target, files, present);
    lemma_dry_units(action, units, linked);
}

/// Without `--yes` (and outside a dry run) declared volumes are only removed
/// after a yes: the plan asks first, and any other answer removes nothing
/// and says "Aborted".
pub proof fn clean_volumes_asks_first(names: Seq<Seq<char>>, answer: Seq<char>)
    requires
        names.len() > 0,
    ensures
        clean_plan(false, false, names) matches CleanView::AskFirst(_, steps) && steps == removal_steps(names),
        !crate::menu::is_yes(answer) ==> after_answer_steps(answer, removal_steps(names)) == seq![StepView::Say("Aborted"@)],
        crate::menu::is_yes(answer) ==> after_answer_steps(answer, removal_steps(names)) == removal_steps(names),
{
}

proof fn lemma_units_checked(action: Seq<char>, units: Seq<Seq<char>>, linked: Seq<bool>)
    ensures
        forall|i: int| 0 <= i < unit_steps(false, action, units, linked).len() ==> (#[trigger] unit_steps(false, action, units, linked)[i] matches StepView::Run(_, must) && must),
    decreases units.len(),
{
    if units.len() > 0 {
        lemma_units_checked(action, units.drop_first(), linked.drop_first());
        let here: Seq<StepView> = if linked[0] {
            seq![StepView::Run(("systemctl"@, seq!["--user"@, action, crate::names::unit_name_of(units[0])]), true)]
        } else {
            Seq::empty()
        };
        let rest = unit_steps(false, action, units.drop_first(), linked.drop_first());
        assert(unit_steps(false, action, units, linked) == here + rest);
        assert forall|i: int| 0 <= i < (here + rest).len() implies (#[trigger] (here + rest)[i] matches StepView::Run(_, must) && must) by {
            if i >= here.len() {
                assert((here + rest)[i] == rest[i - here.len()]);
            }
        }
    }
}

/// Starting, stopping and restarting do not hide failures: outside a dry run
/// every step runs `systemctl` and a failure ends the operation.
pub proof fn unit_actions_report_failures(action: Seq<char>, units: Seq<Seq<char>>, linked: Seq<bool>)
    ensures
        forall|i: int| 0 <= i < unit_steps(false, action, units, linked).len() ==> (#[trigger] unit_steps(false, action, units, linked)[i] matches StepView::Run(_, must) && must),
{
    lemma_units_checked(action, units, linked);
}

/// An action and a number may come in either order: "s 2" selects what "2 s" does.
pub proof fn selection_order_is_free(word: Seq<char>, number: Seq<char>)
    requires
        usize_value(word) is None,
        usize_value(number) is Some,
    ensures
        selection_of(seq![number, word]) == Ok::<(usize, Option<Seq<char>>), crate::menu::SelectionError>((usize_value(number).unwrap(), Some(word))),
        selection_of(seq![word, number]) == selection_of(seq![number, word]),
{
}

/// A number alone toggles its unit: a running unit is stopped, any other is
/// started.
pub proof fn number_alone_toggles(input: Seq<char>, rows: Seq<ServiceRow>, number: Seq<char>)
    requires
        words(trim(input)) == seq![number],
        usize_value(number) is Some,
        row_position(usize_value(number).unwrap()) < rows.len(),
    ensures
        menu_choice(input, rows) == Ok::<MenuChoice, crate::menu::SelectionError>(
            if is_running(rows[row_position(usize_value(number).unwrap())]) {
                MenuChoice::Stop(rows[row_position(usize_value(number).unwrap())].unit@)
            } else {
                MenuChoice::Start(rows[row_position(usize_value(number).unwrap())].unit@)
            },
        ),
{
    let t = trim(input);
    if t.len() == 0 {
        assert(words(t) == Seq::<Seq<char>>::empty());
    }
    if is_quit_word(t) {
        reveal_strlit("q");
        reveal_strlit("quit");
        reveal_strlit("exit");
        assert(!is_white(t[0]));
        lemma_first_word(t);
        assert(words(t)[0] == first_word(t));
        assert(number[0] == t[0]);
        assert(!is_digit(number[0]));
        assert(unsigned_digits(number) == number);
        assert(!all_digits(number));
    }
    assert(t.len() > 0);
    assert(!is_quit_word(t));
    let n = usize_value(number).unwrap();
    assert(selection_of(words(t)) == Ok::<(usize, Option<Seq<char>>), crate::menu::SelectionError>((n, None)));
    let row = rows[row_position(n)];
    reveal_strlit("p");
    reveal_strlit("s");
    reveal_strlit("start");
    assert("p"@[0] != "s"@[0]);
    assert("p"@.len() != "start"@.len());
    assert("s"@.len() == 1);
    assert(action_choice("p"@, row.unit@) == MenuChoice::Stop(row.unit@));
    assert(action_choice("s"@, row.unit@) == MenuChoice::Start(row.unit@));
}

/// A command line is shown as its program and arguments joined by spaces.
pub proof fn command_text_joins_words(cmd: Seq<char>, args: Seq<Seq<char>>)
    ensures
        command_text(cmd, args) == join(seq![cmd] + args, seq![' ']),
    decreases args.len(),
{
    if args.len() == 1 {
        assert((seq![cmd] + args).drop_last() =~= seq![cmd]);
        assert(join(seq![cmd] + args, seq![' ']) == join(seq![cmd], seq![' ']) + seq![' '] + args[0]);
        assert(join(args, seq![' ']) == args[0]);
    } else if args.len() > 1 {
        command_text_joins_words(cmd, args.drop_last());
        assert((seq![cmd] + args).drop_last() =~= seq![cmd] + args.drop_last());
        assert((seq![cmd] + args).last() == args.last());
        assert(command_text(cmd, args) =~= command_text(cmd, args.drop_last()) + seq![' '] + args.last());
    } else {
        assert(seq![cmd] + args =~= seq![cmd]);
    }
}

/// The unit file that `start`, `stop`, `restart` and `status` look for is
/// the link that installing a `.container` quadlet creates.
pub proof fn unit_file_is_install_link(target: Seq<char>, name: Seq<char>)
    requires
        extension_text(name) == "container"@,
    ensures
        crate::plan::unit_file_of(target, crate::names::stem_of(name)) == crate::paths::joined(target, name),
{
    reveal_strlit("container");
    reveal_strlit(".container");
    crate::names::lemma_stem_and_extension_rebuild_name(name);
    if !name.contains('.') {
        assert(extension_text(name).len() == 0);
    }
    assert(crate::names::stem_of(name) + ".container"@ =~= crate::names::stem_of(name) + seq!['.'] + extension_text(name));
}

/// The paths that steps link, in order.
pub open spec fn linked_paths(steps: Seq<StepView>) -> Seq<Seq<char>>
    decreases steps.len(),
{
    if steps.len() == 0 {
        Seq::empty()
    } else {
        let rest = linked_paths(steps.drop_first());
        match steps[0] {
            StepView::Link(_, dest) => seq![dest] + rest,
            _ => rest,
        }
    }
}

/// The files that steps remove, in order.
pub open spec fn removed_paths(steps: Seq<StepView>) -> Seq<Seq<char>>
    decreases steps.len(),
{
    if steps.len() == 0 {
        Seq::empty()
    } else {
        let rest = removed_paths(steps.drop_first());
        match steps[0] {
            StepView::RemoveFile(p) => seq![p] + rest,
            _ => rest,
        }
    }
}

proof fn lemma_paths_concat(a: Seq<StepView>, b: Seq<StepView>)
    ensures
        linked_paths(a + b) == linked_paths(a) + linked_paths(b),
        removed_paths(a + b) == removed_paths(a) + removed_paths(b),
    decreases a.len(),
{
    if a.len() == 0 {
        assert(a + b =~= b);
        assert(linked_paths(a) + linked_paths(b) =~= linked_paths(b));
        assert(removed_paths(a) + removed_paths(b) =~= removed_paths(b));
    } else {
        lemma_paths_concat(a.drop_first(), b);
        assert((a + b).drop_first() =~= a.drop_first() + b);
        assert((a + b)[0] == a[0]);
        assert(linked_paths(a) + linked_paths(b) =~= match a[0] {
            StepView::Link(_, dest) => seq![dest] + (linked_paths(a.drop_first()) + linked_paths(b)),
            _ => linked_paths(a.drop_first()) + linked_paths(b),
        });
        assert(removed_paths(a) + removed_paths(b) =~= match a[0] {
            StepView::RemoveFile(p) => seq![p] + (removed_paths(a.drop_first()) + removed_paths(b)),
            _ => removed_paths(a.drop_first()) + removed_paths(b),
        });
    }
}

proof fn lemma_single_paths(x: StepView)
    ensures
        linked_paths(seq![x]) == (match x {
            StepView::Link(_, dest) => seq![dest],
            _ => Seq::<Seq<char>>::empty(),
        }),
        removed_paths(seq![x]) == (match x {
            StepView::RemoveFile(p) => seq![p],
            _ => Seq::<Seq<char>>::empty(),
        }),
{
    assert(seq![x].drop_first() =~= Seq::<StepView>::empty());
    assert(linked_paths(Seq::<StepView>::empty()) == Seq::<Seq<char>>::empty());
    assert(removed_paths(Seq::<StepView>::empty()) == Seq::<Seq<char>>::empty());
    assert(seq![x][0] == x);
    match x {
        StepView::Link(_, dest) => {
            assert(seq![dest] + Seq::<Seq<char>>::empty() =~= seq![dest]);
        },
        StepView::RemoveFile(p) => {
            assert(seq![p] + Seq::<Seq<char>>::empty() =~= seq![p]);
        },
        _ => {},
    }
    assert(linked_paths(seq![x]) =~= match x {
        StepView::Link(_, dest) => seq![dest],
        _ => Seq::<Seq<char>>::empty(),
    });
    assert(removed_paths(seq![x]) =~= match x {
        StepView::RemoveFile(p) => seq![p],
        _ => Seq::<Seq<char>>::empty(),
    });
}

/// Uninstalling undoes installing: when every link is present, uninstall
/// removes exactly the paths that install links, in the same order (and
/// install removes nothing, uninstall links nothing).
pub proof fn uninstall_removes_what_install_links(target: Seq<char>, files: Seq<Seq<char>>, present: Seq<bool>)
    requires
        present.len() == files.len(),
        forall|i: int| 0 <= i < present.len() ==> present[i],
    ensures
        removed_paths(uninstall_steps(false, target, files, present)) == linked_paths(link_steps(false, target, files)),
        removed_paths(link_steps(false, target, files)) == Seq::<Seq<char>>::empty(),
        linked_paths(uninstall_steps(false, target, files, present)) == Seq::<Seq<char>>::empty(),
    decreases files.len(),
{
    if files.len() == 0 {
        lemma_single_paths(reload_step(false));
    } else {
        match file_name_of(files[0]) {
            None => {
                lemma_single_paths(StepView::Fail(crate::paths::invalid_name_text(files[0])));
            },
            Some(n) => {
                assert(forall|i: int| 0 <= i < present.drop_first().len() ==> present.drop_first()[i] == present[i + 1]);
                uninstall_removes_what_install_links(target, files.drop_first(), present.drop_first());
                let link = crate::plan::link_step(false, target, files[0], n);
                lemma_single_paths(link);
                lemma_paths_concat(seq![link], link_steps(false, target, files.drop_first()));
                let stop: Seq<StepView> = if extension_text(n) == "container"@ {
                    seq![stop_before_remove_step(false, crate::names::stem_of(n))]
                } else {
                    Seq::empty()
                };
                let rm = remove_step(false, crate::paths::joined(target, n));
                lemma_single_paths(rm);
                if extension_text(n) == "container"@ {
                    lemma_single_paths(stop_before_remove_step(false, crate::names::stem_of(n)));
                } else {
                    assert(linked_paths(stop) == Seq::<Seq<char>>::empty());
                    assert(removed_paths(stop) == Seq::<Seq<char>>::empty());
                }
                lemma_paths_concat(stop, seq![rm]);
                assert(present[0]);
                lemma_paths_concat(unlink_steps(false, target, n), uninstall_steps(false, target, files.drop_first(), present.drop_first()));
                assert(Seq::<Seq<char>>::empty() + seq![crate::paths::joined(target, n)] =~= seq![crate::paths::joined(target, n)]);
                assert(Seq::<Seq<char>>::empty() + Seq::<Seq<char>>::empty() =~= Seq::<Seq<char>>::empty());
            },
        }
    }
}

proof fn lemma_join_words(w: Seq<Seq<char>>)
    requires
        2 <= w.len() <= 4,
    ensures
        join(w, seq![' ']) == (if w.len() == 2 {
            w[0] + seq![' '] + w[1]
        } else if w.len() == 3 {
            w[0] + seq![' '] + w[1] + seq![' '] + w[2]
        } else {
            w[0] + seq![' '] + w[1] + seq![' '] + w[2] + seq![' '] + w[3]
        }),
{
    let sp = seq![' '];
    if w.len() >= 2 {
        assert(join(w.take(1), sp) == w[0]) by {
            assert(w.take(1).len() == 1);
        }
        assert(w.take(2).drop_last() =~= w.take(1));
        assert(join(w.take(2), sp) == w[0] + sp + w[1]);
    }
    if w.len() >= 3 {
        assert(w.take(3).drop_last() =~= w.take(2));
        assert(join(w.take(3), sp) == w[0] + sp + w[1] + sp + w[2]);
    }
    if w.len() == 4 {
        assert(w.take(4).drop_last() =~= w.take(3));
    }
    assert(w.take(w.len() as int) =~= w);
}

/// A dry run reports each command exactly as it would run it: the report is
/// "DRY-RUN " followed by the command line that the real run executes.
pub proof fn dry_run_names_the_real_command(action: Seq<char>, stem: Seq<char>, unit: Seq<char>, volume: Seq<char>)
    ensures
        reload_step(true) == StepView::Say("DRY-RUN "@ + command_text("systemctl"@, seq!["--user"@, "daemon-reload"@])),
        reload_step(false) == StepView::Run(("systemctl"@, seq!["--user"@, "daemon-reload"@]), true),
        stop_before_remove_step(true, stem) == StepView::Say("DRY-RUN "@ + command_text(
            "systemctl"@,
            seq!["--user"@, "stop"@, crate::names::unit_name_of(stem)],
        )),
        stop_before_remove_step(false, stem) == StepView::Run(("systemctl"@, seq!["--user"@, "stop"@, crate::names::unit_name_of(stem)]), false),
        "DRY-RUN systemctl --user "@ + action + " "@ + crate::names::unit_name_of(unit) == "DRY-RUN "@ + command_text(
            "systemctl"@,
            seq!["--user"@, action, crate::names::unit_name_of(unit)],
        ),
        "DRY-RUN podman volume rm -f "@ + volume == "DRY-RUN "@ + command_text(
            "podman"@,
            seq!["volume"@, "rm"@, "-f"@, volume],
        ),
{
    reveal_strlit("DRY-RUN ");
    reveal_strlit("systemctl");
    reveal_strlit("--user");
    reveal_strlit("daemon-reload");
    reveal_strlit("stop");
    reveal_strlit("podman");
    reveal_strlit("volume");
    reveal_strlit("rm");
    reveal_strlit("-f");
    reveal_strlit("DRY-RUN systemctl --user daemon-reload");
    reveal_strlit("DRY-RUN systemctl --user stop ");
    reveal_strlit("DRY-RUN systemctl --user ");
    reveal_strlit(" ");
    reveal_strlit("DRY-RUN podman volume rm -f ");
    let u1 = crate::names::unit_name_of(stem);
    let u2 = crate::names::unit_name_of(unit);
    lemma_join_words(seq!["--user"@, "daemon-reload"@]);
    lemma_join_words(seq!["--user"@, "stop"@, u1]);
    lemma_join_words(seq!["--user"@, action, u2]);
    lemma_join_words(seq!["volume"@, "rm"@, "-f"@, volume]);
    assert("DRY-RUN systemctl --user daemon-reload"@ =~= "DRY-RUN "@ + ("systemctl"@ + seq![' '] + ("--user"@ + seq![' '] + "daemon-reload"@)));
    assert("DRY-RUN systemctl --user stop "@ + u1 =~= "DRY-RUN "@ + ("systemctl"@ + seq![' '] + ("--user"@ + seq![' '] + "stop"@ + seq![' '] + u1)));
    assert("DRY-RUN systemctl --user "@ + action + " "@ + u2 =~= "DRY-RUN "@ + ("systemctl"@ + seq![' '] + ("--user"@ + seq![' '] + action + seq![' '] + u2)));
    assert("DRY-RUN podman volume rm -f "@ + volume =~= "DRY-RUN "@ + ("podman"@ + seq![' '] + ("volume"@ + seq![' '] + "rm"@ + seq![' '] + "-f"@ + seq![' '] + volume)));
}

/// The menu's action words: "s"/"start" start the unit, "p"/"stop" stop it,
/// "r"/"restart" restart it and "l"/"logs" show its logs, whatever the unit.
pub proof fn action_words_pick_their_action(unit: Seq<char>)
    ensures
        action_choice("s"@, unit) == MenuChoice::Start(unit),
        action_choice("start"@, unit) == MenuChoice::Start(unit),
        action_choice("p"@, unit) == MenuChoice::Stop(unit),
        action_choice("stop"@, unit) == MenuChoice::Stop(unit),
        action_choice("r"@, unit) == MenuChoice::Restart(unit),
        action_choice("restart"@, unit) == MenuChoice::Restart(unit),
        action_choice("l"@, unit) == MenuChoice::Logs(unit),
        action_choice("logs"@, unit) == MenuChoice::Logs(unit),
{
    reveal_strlit("s");
    reveal_strlit("start");
    reveal_strlit("p");
    reveal_strlit("stop");
    reveal_strlit("r");
    reveal_strlit("restart");
    reveal_strlit("l");
    reveal_strlit("logs");
    assert("p"@[0] != "s"@[0]);
    assert("stop"@.len() != "s"@.len() && "stop"@.len() != "start"@.len());
    assert("r"@[0] != "s"@[0] && "r"@[0] != "p"@[0]);
    assert("restart"@.len() != "s"@.len() && "restart"@.len() != "start"@.len() && "restart"@.len() != "p"@.len() && "restart"@.len() != "stop"@.len());
    assert("l"@[0] != "s"@[0] && "l"@[0] != "p"@[0] && "l"@[0] != "r"@[0]);
    assert("logs"@.len() != "s"@.len() && "logs"@.len() != "start"@.len() && "logs"@.len() != "p"@.len() && "logs"@.len() != "restart"@.len() && "logs"@.len() != "r"@.len());
    assert("logs"@[1] != "stop"@[1]);
}

/// The confirmation prompt takes an answer as a yes exactly when, trimmed,
/// it is "y", "Y", "yes" or "YES".
pub proof fn yes_words_confirm(answer: Seq<char>)
    ensures
        is_yes(answer) <==> (trim(answer) == "y"@ || trim(answer) == "Y"@ || trim(answer) == "yes"@
            || trim(answer) == "YES"@),
{
}

/// The rows that are linked.
pub open spec fn row_linked() -> spec_fn(ServiceRow) -> bool {
    |r: ServiceRow| r.linked
}

/// The rows that are linked and active.
pub open spec fn row_linked_active() -> spec_fn(ServiceRow) -> bool {
    |r: ServiceRow| r.linked && r.active
}

/// The rows that are linked and not active.
pub open spec fn row_linked_inactive() -> spec_fn(ServiceRow) -> bool {
    |r: ServiceRow| r.linked && !r.active
}

/// The rows that are not linked.
pub open spec fn row_unlinked() -> spec_fn(ServiceRow) -> bool {
    |r: ServiceRow| !r.linked
}

proof fn lemma_tally_counts_rows(rows: Seq<ServiceRow>)
    ensures
        tally(rows).0 == rows.filter(row_linked()).len(),
        tally(rows).1 == rows.filter(row_linked_active()).len(),
        tally(rows).2 == rows.filter(row_linked_inactive()).len(),
        tally(rows).3 == rows.filter(row_unlinked()).len(),
    decreases rows.len(),
{
    reveal(Seq::filter);
    if rows.len() > 0 {
        lemma_tally_counts_rows(rows.drop_last());
    }
}

/// The status summary counts the rows: "total" all of them, "linked" those
/// that are linked, "running" those linked and active, "stopped" those linked
/// and not active, and "missing" those not linked.
pub proof fn summary_counts_the_rows(rows: Seq<ServiceRow>)
    ensures
        summary_text(rows.len(), tally(rows)).len() == 7,
        summary_text(rows.len(), tally(rows))[2] == "  total   = "@ + nat_text(rows.len())
            + " (container units found)"@,
        summary_text(rows.len(), tally(rows))[3] == "  linked  = "@ + nat_text(
            rows.filter(row_linked()).len(),
        ) + " ✅ (has symlink in target dir)"@,
        summary_text(rows.len(), tally(rows))[4] == "  running = "@ + nat_text(
            rows.filter(row_linked_active()).len(),
        ) + " 🟢 (active in systemd --user)"@,
        summary_text(rows.len(), tally(rows))[5] == "  stopped = "@ + nat_text(
            rows.filter(row_linked_inactive()).len(),
        ) + " 🟡 (linked but not active)"@,
        summary_text(rows.len(), tally(rows))[6] == "  missing = "@ + nat_text(
            rows.filter(row_unlinked()).len(),
        ) + " ❌ (no symlink in target dir)"@,
{
    lemma_tally_counts_rows(rows);
}

/// Flags that are set.
pub open spec fn flag_set() -> spec_fn(bool) -> bool {
    |b: bool| b
}

/// Flags that are not set.
pub open spec fn flag_unset() -> spec_fn(bool) -> bool {
    |b: bool| !b
}

proof fn lemma_filter_len_first<A>(s: Seq<A>, p: spec_fn(A) -> bool)
    requires
        s.len() > 0,
    ensures
        s.filter(p).len() == (if p(s[0]) { 1int } else { 0int }) + s.drop_first().filter(p).len(),
{
    let head = seq![s[0]];
    assert(s =~= head + s.drop_first());
    Seq::filter_distributes_over_add(head, s.drop_first(), p);
    reveal(Seq::filter);
    assert(head.drop_last() =~= Seq::<A>::empty());
    assert(Seq::<A>::empty().filter(p) =~= Seq::<A>::empty());
}

/// `start` installs what is missing: the units reported missing are exactly
/// the unlinked ones, in order. Unit `i` without a link stands at the
/// position given by the number of unlinked units before it, and there are
/// as many entries as unlinked units.
pub proof fn missing_targets_are_the_unlinked_units(units: Seq<Seq<char>>, linked: Seq<bool>)
    requires
        units.len() == linked.len(),
    ensures
        missing_units(units, linked).len() == linked.filter(flag_unset()).len(),
        forall|i: int|
            0 <= i < units.len() && !linked[i] ==> missing_units(units, linked)[linked.take(i).filter(
                flag_unset(),
            ).len() as int] == units[i],
    decreases units.len(),
{
    reveal(Seq::filter);
    if units.len() > 0 {
        let n = units.len() as int;
        missing_targets_are_the_unlinked_units(units.drop_last(), linked.drop_last());
        let rest = missing_units(units.drop_last(), linked.drop_last());
        assert forall|i: int| 0 <= i < units.len() && !linked[i] implies missing_units(units, linked)[linked.take(
            i,
        ).filter(flag_unset()).len() as int] == units[i] by {
            if i < n - 1 {
                assert(linked.take(i) =~= linked.drop_last().take(i));
                assert(units.drop_last()[i] == units[i]);
                assert(linked.drop_last()[i] == linked[i]);
                linked.drop_last().take(i).lemma_filter_len(flag_unset());
                linked.drop_last().lemma_filter_len(flag_unset());
                assert(linked.drop_last().take(i).filter(flag_unset()).len() < rest.len()) by {
                    lemma_prefix_count_below(linked.drop_last(), flag_unset(), i);
                }
            } else {
                assert(linked.take(i) =~= linked.drop_last());
            }
        }
    }
}

proof fn lemma_prefix_count_below(flags: Seq<bool>, p: spec_fn(bool) -> bool, i: int)
    requires
        0 <= i < flags.len(),
        p(flags[i]),
    ensures
        flags.take(i).filter(p).len() < flags.filter(p).len(),
    decreases flags.len(),
{
    reveal(Seq::filter);
    if i == flags.len() - 1 {
        assert(flags.take(i) =~= flags.drop_last());
    } else {
        lemma_prefix_count_below(flags.drop_last(), p, i);
        assert(flags.take(i) =~= flags.drop_last().take(i));
    }
}

/// Outside a dry run, `start`, `stop` and `restart` run one `systemctl
/// --user <action> <unit>` for each linked unit, in order, and skip the
/// others: linked unit `i` has the step at the position given by the number
/// of linked units before it, and there are as many steps as linked units.
pub proof fn unit_action_runs_each_linked_unit(action: Seq<char>, units: Seq<Seq<char>>, linked: Seq<bool>)
    requires
        units.len() == linked.len(),
    ensures
        unit_steps(false, action, units, linked).len() == linked.filter(flag_set()).len(),
        forall|i: int|
            0 <= i < units.len() && linked[i] ==> unit_steps(false, action, units, linked)[linked.take(i).filter(
                flag_set(),
            ).len() as int] == StepView::Run(
                ("systemctl"@, seq!["--user"@, action, unit_name_of(units[i])]),
                true,
            ),
    decreases units.len(),
{
    if units.len() > 0 {
        let u = units[0];
        let here: Seq<StepView> = if linked[0] {
            seq![StepView::Run(("systemctl"@, seq!["--user"@, action, unit_name_of(u)]), true)]
        } else {
            Seq::empty()
        };
        let rest = unit_steps(false, action, units.drop_first(), linked.drop_first());
        assert(unit_steps(false, action, units, linked) == here + rest);
        unit_action_runs_each_linked_unit(action, units.drop_first(), linked.drop_first());
        lemma_filter_len_first(linked, flag_set());
        assert forall|i: int| 0 <= i < units.len() && linked[i] implies unit_steps(false, action, units, linked)[linked.take(
            i,
        ).filter(flag_set()).len() as int] == StepView::Run(
            ("systemctl"@, seq!["--user"@, action, unit_name_of(units[i])]),
            true,
        ) by {
            if i == 0 {
                assert(linked.take(0) =~= Seq::<bool>::empty());
                reveal(Seq::filter);
            } else {
                lemma_filter_len_first(linked.take(i), flag_set());
                assert(linked.take(i).drop_first() =~= linked.drop_first().take(i - 1));
                assert(linked.take(i)[0] == linked[0]);
                assert(units.drop_first()[i - 1] == units[i]);
                assert(linked.drop_first()[i - 1] == linked[i]);
                lemma_prefix_count_below(linked.drop_first(), flag_set(), i - 1);
                assert(linked.take(i).filter(flag_set()).len() == here.len() + linked.drop_first().take(
                    i - 1,
                ).filter(flag_set()).len());
            }
        }
    } else {
        reveal(Seq::filter);
    }
}

} // verus!
