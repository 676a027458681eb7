use qctl::command::{
    command_failure_message, exit_status_display, format_command, is_active_output,
    logs_command, quadlet_check_command, recent_logs_command, status_failure_message,
    systemctl_command, volume_remove_command,
};
use qctl::context::{quadlets_dir, AppContext};
use qctl::menu::{confirmed, menu_command, parse_usize, MenuCommand, SelectionError};
use qctl::names::extension_of;
use qctl::paths::{basename, extension_of_path, join_path, path_less};
use qctl::plan::{
    after_answer, clean_prompt, clean_volumes, declared_volumes, install_links, install_prepare,
    link_path, missing_notice, missing_targets, uninstall, unit_action, unit_file, volume_files,
    CleanVolumes, Step,
};
use qctl::quadlets::{collect_quadlets, resolve_targets};
use qctl::status::{compact_line, count_status, location_lines, status_summary, ServiceRow};
use qctl::text::{i64_text, join_strs, split_words, trim_str, u64_text};
use qctl::volume::parse_volume_name;

fn strings(v: &[&str]) -> Vec<String> {
    v.iter().map(|s| s.to_string()).collect()
}

fn said(steps: &[Step]) -> Vec<String> {
    steps
        .iter()
        .map(|s| match s {
            Step::Say(line) => line.clone(),
            other => panic!("not a report: {other:?}"),
        })
        .collect()
}

fn row(unit: &str, linked: bool, active: bool) -> ServiceRow {
    ServiceRow::new(unit.to_string(), linked, active)
}

#[test]
fn extension_of_takes_text_after_last_dot() {
    assert_eq!(extension_of("voicebox.prod.container"), "container");
    assert_eq!(extension_of("voicebox"), "");
    assert_eq!(extension_of("voicebox."), "");
}

#[test]
fn basename_follows_path_components() {
    assert_eq!(basename("/home/u/project/voicebox.container"), Ok("voicebox.container".to_string()));
    assert_eq!(basename("foo.txt/."), Ok("foo.txt".to_string()));
    assert_eq!(basename("foo.txt/.//"), Ok("foo.txt".to_string()));
    assert_eq!(basename("foo.txt/.."), Err("invalid file name for foo.txt/..".to_string()));
    assert_eq!(basename("/"), Err("invalid file name for /".to_string()));
    assert_eq!(basename(""), Err("invalid file name for ".to_string()));
    assert_eq!(basename("."), Err("invalid file name for .".to_string()));
    assert_eq!(basename("./a"), Ok("a".to_string()));
    // the same answers as std's Path::file_name
    for p in ["/home/u/x.volume", "a/b/", "/a/..", "..", "a/./b/."] {
        let expected = std::path::Path::new(p).file_name().map(|f| f.to_str().unwrap().to_string());
        assert_eq!(basename(p).ok(), expected);
    }
}

#[test]
fn extension_of_path_matches_path_extension() {
    assert_eq!(extension_of_path("dir/data.volume").as_deref(), Some("volume"));
    assert_eq!(extension_of_path("dir/archive.tar.gz").as_deref(), Some("gz"));
    assert_eq!(extension_of_path("dir/.bashrc"), None);
    assert_eq!(extension_of_path("dir/noext"), None);
    assert_eq!(extension_of_path("dir/trailing.").as_deref(), Some(""));
    assert_eq!(extension_of_path("dir/.."), None);
}

#[test]
fn join_path_puts_one_slash_between() {
    assert_eq!(join_path("/home/u", ".config/containers/systemd"), "/home/u/.config/containers/systemd");
    assert_eq!(join_path("/home/u/", "x"), "/home/u/x");
    assert_eq!(join_path("", "x"), "x");
    assert_eq!(join_path("/home/u", "/abs"), "/abs");
    assert_eq!(quadlets_dir("/p"), "/p/quadlets");
}

#[test]
fn paths_sort_by_components() {
    // component order differs from plain text order here: '/' sorts after '-'
    assert!(path_less("a/b", "a-b"));
    assert!(!path_less("a-b", "a/b"));
    assert!(path_less("/p/b.container", "/p/quadlets/a.container"));
    assert!(!path_less("/p/x", "/p/x"));
    assert!(path_less("/p", "/p/x"));
}

#[test]
fn collect_quadlets_filters_and_sorts() {
    let entries = strings(&[
        "/p/quadlets/web.container",
        "/p/quadlets/notes.txt",
        "/p/b.volume",
        "/p/a.network",
        "/p/README",
    ]);
    let files = collect_quadlets(&entries).unwrap();
    assert_eq!(files, strings(&["/p/a.network", "/p/b.volume", "/p/quadlets/web.container"]));
}

#[test]
fn duplicate_names_are_reported_with_both_paths() {
    let entries = strings(&[
        "/p/quadlets/voicebox.container",
        "/p/quadlets/other.volume",
        "/p/voicebox.container",
    ]);
    let err = collect_quadlets(&entries).unwrap_err();
    assert_eq!(
        err.message(),
        "duplicate quadlet file name 'voicebox.container' found in /p/quadlets/voicebox.container and /p/voicebox.container"
    );
}

#[test]
fn resolve_targets_sorts_and_dedups_container_units() {
    let sources = strings(&["/p/web.container", "/p/db.container", "/p/data.volume"]);
    let installed = strings(&["/h/web.container", "/h/extra.container", "/h/net.network"]);
    assert_eq!(resolve_targets(None, &sources, &installed), strings(&["db", "extra", "web"]));
    assert_eq!(resolve_targets(Some("web.container"), &sources, &installed), strings(&["web"]));
    assert_eq!(resolve_targets(Some("web"), &[], &[]), strings(&["web"]));
    assert!(resolve_targets(None, &[], &[]).is_empty());
}

#[test]
fn parse_volume_name_uses_first_volume_line_only() {
    assert_eq!(parse_volume_name("VolumeName= data \r\n").as_deref(), Some("data"));
    assert_eq!(parse_volume_name("a=b\nVolumeName=last").as_deref(), Some("last"));
    assert_eq!(parse_volume_name("VolumeName=\nVolumeName=later\n"), None);
    assert_eq!(parse_volume_name(" VolumeName=x\n"), None);
    assert_eq!(parse_volume_name(""), None);
}

#[test]
fn parse_usize_reads_like_from_str() {
    assert_eq!(parse_usize("42"), Some(42));
    assert_eq!(parse_usize("+7"), Some(7));
    assert_eq!(parse_usize("-7"), None);
    assert_eq!(parse_usize("+"), None);
    assert_eq!(parse_usize(""), None);
    assert_eq!(parse_usize("1x"), None);
    assert_eq!(parse_usize("18446744073709551615"), Some(usize::MAX));
    assert_eq!(parse_usize("18446744073709551616"), None);
}

#[test]
fn selection_errors_have_their_messages() {
    assert_eq!(SelectionError::Empty.message(), "empty selection");
    assert_eq!(SelectionError::Usage.message(), "use: <number> [action] or <action> <number>");
    assert_eq!(qctl::menu::parse_menu_selection(&[]).unwrap_err(), SelectionError::Empty);
    assert_eq!(qctl::menu::parse_menu_selection(&["a", "b"]).unwrap_err(), SelectionError::Usage);
}

#[test]
fn menu_number_alone_toggles_the_unit() {
    let rows = vec![row("web", true, true), row("db", true, false), row("new", false, false)];
    assert!(matches!(menu_command("1\n", &rows), Ok(MenuCommand::Stop(u)) if u == "web"));
    assert!(matches!(menu_command(" 2 ", &rows), Ok(MenuCommand::Start(u)) if u == "db"));
    assert!(matches!(menu_command("3", &rows), Ok(MenuCommand::Start(u)) if u == "new"));
    // zero picks the first row, as a saturating subtraction does
    assert!(matches!(menu_command("0", &rows), Ok(MenuCommand::Stop(u)) if u == "web"));
}

#[test]
fn menu_reads_actions_in_either_order() {
    let rows = vec![row("web", true, true), row("db", true, false)];
    assert!(matches!(menu_command("r 2", &rows), Ok(MenuCommand::Restart(u)) if u == "db"));
    assert!(matches!(menu_command("2 restart", &rows), Ok(MenuCommand::Restart(u)) if u == "db"));
    assert!(matches!(menu_command("l 1", &rows), Ok(MenuCommand::Logs(u)) if u == "web"));
    assert!(matches!(menu_command("1 p", &rows), Ok(MenuCommand::Stop(u)) if u == "web"));
    assert!(matches!(menu_command("x 1", &rows), Ok(MenuCommand::Unknown(w)) if w == "x"));
    assert!(matches!(menu_command("9", &rows), Ok(MenuCommand::Invalid(9))));
    assert!(matches!(menu_command("   \n", &rows), Ok(MenuCommand::Redraw)));
    assert!(matches!(menu_command("quit\n", &rows), Ok(MenuCommand::Quit)));
    assert!(matches!(menu_command("exit", &rows), Ok(MenuCommand::Quit)));
    assert!(matches!(menu_command("start", &rows), Err(SelectionError::Usage)));
}

#[test]
fn confirmation_accepts_only_yes() {
    assert!(confirmed("y\n"));
    assert!(confirmed(" YES "));
    assert!(!confirmed("Yes"));
    assert!(!confirmed("n\n"));
    assert!(!confirmed(""));
}

#[test]
fn text_helpers_work_on_unicode_whitespace() {
    assert_eq!(trim_str("\u{a0}\t x y \u{3000}\n"), "x y");
    assert_eq!(split_words("  s\t 12 \u{2003}z "), vec!["s", "12", "z"]);
    assert_eq!(join_strs(&["a", "b", "c"], ", "), "a, b, c");
    assert_eq!(u64_text(0), "0");
    assert_eq!(u64_text(1234567890), "1234567890");
    assert_eq!(i64_text(-42), "-42");
    assert_eq!(i64_text(i64::MIN), "-9223372036854775808");
}

#[test]
fn commands_and_failures_are_shown_exactly() {
    assert_eq!(format_command("podman", &[]), "podman");
    assert_eq!(format_command("podman", &["volume", "rm", "-f", "x"]), "podman volume rm -f x");
    assert_eq!(exit_status_display(Some(42)), "42");
    assert_eq!(exit_status_display(Some(-1)), "-1");
    assert_eq!(exit_status_display(None), "terminated by signal");
    assert_eq!(
        command_failure_message("podman", &["volume", "rm", "-f", "qctl-test-data"], Some(42), b"podman exploded\n"),
        "command failed: podman volume rm -f qctl-test-data (exit status: 42)\nstderr:\npodman exploded"
    );
    assert_eq!(
        command_failure_message("systemctl", &["--user", "start", "x.service"], Some(1), b"  \n"),
        "command failed: systemctl --user start x.service (exit status: 1)"
    );
    assert_eq!(
        status_failure_message("journalctl", &["--user", "-xsfu", "x.service"], None),
        "command failed: journalctl --user -xsfu x.service (exit status: terminated by signal)"
    );
}

#[test]
fn invalid_utf8_in_stderr_is_replaced() {
    let msg = command_failure_message("x", &[], Some(3), b"bad \xff byte");
    assert_eq!(msg, "command failed: x (exit status: 3)\nstderr:\nbad \u{fffd} byte");
}

#[test]
fn is_active_reads_trimmed_output() {
    assert!(is_active_output(b"active\n"));
    assert!(!is_active_output(b"inactive\n"));
    assert!(!is_active_output(b"activating\n"));
    assert!(!is_active_output(b"\xffactive"));
}

#[test]
fn command_lines_name_the_units() {
    let c = systemctl_command("start", "voicebox");
    assert_eq!(c.program, "systemctl");
    assert_eq!(c.args, strings(&["--user", "start", "voicebox.service"]));
    assert_eq!(c.display(), "systemctl --user start voicebox.service");
    assert_eq!(
        logs_command("web", false).args,
        strings(&["--user", "-u", "web.service", "-f", "--since", "1 hour ago"])
    );
    assert_eq!(logs_command("web.service", true).args, strings(&["--user", "-xsfu", "web.service"]));
    assert_eq!(recent_logs_command("web").display(), "journalctl --user -u web.service --since 1 hour ago -n 80 --no-pager");
    assert_eq!(quadlet_check_command("me", "q/x.container").display(), "/usr/lib/podman/quadlet -dryrun -user me q/x.container");
    assert_eq!(volume_remove_command("d").display(), "podman volume rm -f d");
}

#[test]
fn dry_run_install_only_reports() {
    let prepare = install_prepare(true, "/h/.config/containers/systemd");
    let files = strings(&["/p/voicebox.container"]);
    let mut steps = vec![prepare];
    steps.extend(install_links(true, "/h/.config/containers/systemd", &files));
    assert_eq!(
        said(&steps),
        strings(&[
            "DRY-RUN create /h/.config/containers/systemd",
            "DRY-RUN link /p/voicebox.container -> /h/.config/containers/systemd/voicebox.container",
            "DRY-RUN systemctl --user daemon-reload",
        ])
    );
}

#[test]
fn install_links_then_reloads() {
    let files = strings(&["/p/a.container", "/p/b.volume"]);
    let steps = install_links(false, "/t", &files);
    assert_eq!(steps.len(), 3);
    assert!(matches!(&steps[0], Step::Link { src, dest } if src == "/p/a.container" && dest == "/t/a.container"));
    assert!(matches!(&steps[1], Step::Link { src, dest } if src == "/p/b.volume" && dest == "/t/b.volume"));
    assert!(matches!(&steps[2], Step::Run { command, must_succeed: true } if command.display() == "systemctl --user daemon-reload"));
    assert!(matches!(install_prepare(false, "/t"), Step::CreateDir(d) if d == "/t"));
    let bad = install_links(false, "/t", &strings(&["/p/a.container", "/"]));
    assert!(matches!(&bad[1], Step::Fail(m) if m == "invalid file name for /"));
    assert_eq!(bad.len(), 2);
}

#[test]
fn uninstall_stops_containers_then_removes_links() {
    let files = strings(&["/p/voicebox.container", "/p/data.volume", "/p/gone.network"]);
    let steps = uninstall(false, "/t", &files, &[true, true, false]);
    assert_eq!(steps.len(), 4);
    assert!(matches!(&steps[0], Step::Run { command, must_succeed: false } if command.display() == "systemctl --user stop voicebox.service"));
    assert!(matches!(&steps[1], Step::RemoveFile(f) if f == "/t/voicebox.container"));
    assert!(matches!(&steps[2], Step::RemoveFile(f) if f == "/t/data.volume"));
    assert!(matches!(&steps[3], Step::Run { command, must_succeed: true } if command.display() == "systemctl --user daemon-reload"));
    let dry = uninstall(true, "/t", &files, &[true, false, false]);
    assert_eq!(
        said(&dry),
        strings(&[
            "DRY-RUN systemctl --user stop voicebox.service",
            "DRY-RUN remove /t/voicebox.container",
            "DRY-RUN systemctl --user daemon-reload",
        ])
    );
    assert_eq!(link_path("/t", "/p/x.volume").as_deref(), Some("/t/x.volume"));
}

#[test]
fn unit_actions_run_for_linked_units() {
    let units = strings(&["voicebox", "web"]);
    let steps = unit_action(false, "restart", &units, &[true, false]);
    assert_eq!(steps.len(), 1);
    assert!(matches!(&steps[0], Step::Run { command, must_succeed: true } if command.display() == "systemctl --user restart voicebox.service"));
    assert_eq!(
        said(&unit_action(true, "start", &units, &[false, false])),
        strings(&["DRY-RUN systemctl --user start voicebox.service", "DRY-RUN systemctl --user start web.service"])
    );
    assert_eq!(unit_file("/t", "voicebox"), "/t/voicebox.container");
}

#[test]
fn missing_links_are_named_before_install() {
    let units = strings(&["a", "b", "c"]);
    let missing = missing_targets(&units, &[true, false, false]);
    assert_eq!(missing, strings(&["b", "c"]));
    assert_eq!(missing_notice(&missing), "DRY-RUN install missing target links for b, c");
}

#[test]
fn clean_volumes_plans() {
    let files = strings(&["/p/a.container", "/p/data.volume", "/p/x.volume"]);
    assert_eq!(volume_files(&files), strings(&["/p/data.volume", "/p/x.volume"]));
    let names = declared_volumes(&strings(&["[Volume]\nVolumeName=qctl-test-data\n", "[Volume]\n"]));
    assert_eq!(names, strings(&["qctl-test-data"]));

    match clean_volumes(false, false, &[]) {
        CleanVolumes::Report(lines) => assert_eq!(lines, strings(&["No podman volumes declared in .volume files"])),
        other => panic!("{other:?}"),
    }
    match clean_volumes(true, false, &names) {
        CleanVolumes::Report(lines) => assert_eq!(lines, strings(&["DRY-RUN podman volume rm -f qctl-test-data"])),
        other => panic!("{other:?}"),
    }
    match clean_volumes(false, false, &names) {
        CleanVolumes::AskFirst { prompt, steps } => {
            assert_eq!(prompt, "This will remove 1 podman volume(s):\n  qctl-test-data\nContinue? [y/N]: ");
            assert_eq!(said(&after_answer("n\n", steps)), strings(&["Aborted"]));
        }
        other => panic!("{other:?}"),
    }
    match clean_volumes(false, true, &names) {
        CleanVolumes::Remove(steps) => {
            assert_eq!(steps.len(), 1);
            assert!(matches!(&steps[0], Step::Run { command, must_succeed: true } if command.display() == "podman volume rm -f qctl-test-data"));
        }
        other => panic!("{other:?}"),
    }
    match clean_volumes(false, false, &names) {
        CleanVolumes::AskFirst { steps, .. } => assert_eq!(after_answer("y\n", steps).len(), 1),
        other => panic!("{other:?}"),
    }
    assert_eq!(clean_prompt(&strings(&["a", "b"])), "This will remove 2 podman volume(s):\n  a\n  b\nContinue? [y/N]: ");
}

#[test]
fn compact_status_line_for_missing_unit() {
    assert_eq!(compact_line(&row("voicebox", false, false)), "voicebox\t❌\t⚫");
    assert_eq!(compact_line(&row("voicebox", true, false)), "voicebox\t✅\t🟡");
    assert_eq!(compact_line(&row("voicebox", true, true)), "voicebox\t✅\t🟢");
    // a unit that is not linked is never counted as running
    assert_eq!(compact_line(&row("voicebox", false, true)), "voicebox\t❌\t⚫");
}

#[test]
fn status_summary_counts_add_up() {
    let rows = vec![row("a", true, true), row("b", true, false), row("c", false, false)];
    let c = count_status(&rows);
    assert_eq!((c.linked, c.running, c.stopped, c.missing), (2, 1, 1, 1));
    // active but not linked: missing, and not running
    let odd = count_status(&[row("x", false, true), row("y", true, true)]);
    assert_eq!((odd.linked, odd.running, odd.stopped, odd.missing), (1, 1, 0, 1));
    assert_eq!(odd.running + odd.stopped, odd.linked);
    assert!(!row("x", false, true).running());
    assert_eq!(
        status_summary(&rows),
        strings(&[
            "",
            "Summary:",
            "  total   = 3 (container units found)",
            "  linked  = 2 ✅ (has symlink in target dir)",
            "  running = 1 🟢 (active in systemd --user)",
            "  stopped = 1 🟡 (linked but not active)",
            "  missing = 1 ❌ (no symlink in target dir)",
        ])
    );
}

#[test]
fn status_table_shows_each_unit() {
    let rows = vec![row("voicebox", true, false), row("db", false, false)];
    let drawn = qctl::status::draw_status_table(&rows, false);
    assert!(drawn.contains("Link"));
    assert!(drawn.contains("voicebox"));
    assert!(drawn.contains("🟡"));
    assert!(drawn.contains("⚫"));
    let menu = qctl::status::draw_menu_table(&rows, false);
    // the full style with rounded corners
    assert!(drawn.starts_with('╭') && menu.starts_with('╭'));
    assert!(drawn.contains('╯') && drawn.contains('═') && drawn.contains('╪'));
    assert!(menu.contains("s install+start"));
    assert!(menu.contains("s start | l logs"));
    // without colors no escape sequences are drawn; with them they are
    assert!(!drawn.contains('\u{1b}'));
    assert!(qctl::status::draw_status_table(&rows, true).contains('\u{1b}'));
}

#[test]
fn context_reads_home_and_user() {
    let ctx = AppContext::new("/p", true, Some("/h"), None, true).unwrap();
    assert_eq!(ctx.source_dirs, strings(&["/p/quadlets", "/p"]));
    assert_eq!(ctx.target_dir, "/h/.config/containers/systemd");
    assert_eq!(ctx.user, "unknown");
    assert!(ctx.dry_run);
    assert_eq!(ctx.source_display(), "/p/quadlets, /p");
    assert_eq!(
        location_lines(&ctx),
        strings(&["Source: /p/quadlets, /p", "Target: /h/.config/containers/systemd", ""])
    );
    let err = AppContext::new("/p", false, None, Some("me"), false).unwrap_err();
    assert_eq!(err.message(), "HOME is not set");
    let ctx = AppContext::new("/p", false, Some("/h"), Some("me"), false).unwrap();
    assert_eq!(ctx.source_dirs, strings(&["/p"]));
    assert_eq!(ctx.user, "me");
}

#[test]
fn status_lines_for_each_form() {
    let ctx = AppContext::new("/p", false, Some("/h"), Some("me"), false).unwrap();
    assert_eq!(
        qctl::status::status_lines(&ctx, &[], false, "T"),
        strings(&["No container units found in /p"])
    );
    let rows = vec![row("voicebox", false, false), row("web", true, true)];
    assert_eq!(
        qctl::status::status_lines(&ctx, &rows, true, "T"),
        strings(&["voicebox\t❌\t⚫", "web\t✅\t🟢"])
    );
    let full = qctl::status::status_lines(&ctx, &rows, false, "T");
    assert_eq!(full[..5], strings(&["Source: /p", "Target: /h/.config/containers/systemd", "", "T", ""])[..]);
    assert_eq!(full[5], "Summary:");
    assert_eq!(full.len(), 11);
    let report = qctl::status::status_report(&ctx, &rows, true, false);
    assert_eq!(report, strings(&["voicebox\t❌\t⚫", "web\t✅\t🟢"]));
}

#[test]
fn reports_carry_the_drawn_table() {
    let ctx = AppContext::new("/p", false, Some("/h"), Some("me"), false).unwrap();
    let rows = vec![row("voicebox", false, false), row("web", true, true)];
    let drawn = qctl::status::draw_status_table(&rows, false);
    let report = qctl::status::status_report(&ctx, &rows, false, false);
    assert_eq!(report, qctl::status::status_lines(&ctx, &rows, false, &drawn));
    assert!(report[3].contains("voicebox"));
    assert_eq!(report.len(), 11);
    let menu = qctl::status::menu_report(&ctx, &rows, false);
    assert_eq!(menu, qctl::status::menu_screen(&ctx, &qctl::status::draw_menu_table(&rows, false)));
    assert_eq!(menu.len(), 6);
    assert!(menu[3].contains("p stop | r restart | l logs"));
    assert!(!menu[3].contains('\u{1b}'));
}

#[test]
fn menu_screen_and_messages() {
    let ctx = AppContext::new("/p", false, Some("/h"), Some("me"), false).unwrap();
    assert_eq!(
        qctl::status::menu_screen(&ctx, "T"),
        strings(&[
            "Source: /p",
            "Target: /h/.config/containers/systemd",
            "",
            "T",
            "",
            "Actions: number = toggle, s = start, p = stop, r = restart, l = logs, q = quit",
        ])
    );
    assert_eq!(qctl::menu::invalid_selection_line(9), "Invalid selection: 9");
    assert_eq!(qctl::menu::unknown_action_line("zz"), "Unknown action: zz");
    assert_eq!(qctl::menu::logs_heading("web"), "Recent logs for web");
}

#[test]
fn start_installs_first_only_when_links_are_missing() {
    assert!(qctl::plan::install_first(false, &[]).is_none());
    assert!(qctl::plan::install_first(true, &[]).is_none());
    assert!(qctl::plan::install_first(false, &strings(&["a"])).unwrap().is_empty());
    assert_eq!(
        said(&qctl::plan::install_first(true, &strings(&["a", "b"])).unwrap()),
        strings(&["DRY-RUN install missing target links for a, b"])
    );
}
