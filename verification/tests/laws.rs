use qctl::names::{extension_of, strip_dot_extension, systemd_unit};
use qctl::plan::{install_links, reload, uninstall, unit_action, unit_file, Step};

fn strings(v: &[&str]) -> Vec<String> {
    v.iter().map(|s| s.to_string()).collect()
}

#[test]
fn stem_dot_extension_rebuilds_the_name() {
    for name in ["voicebox.prod.container", "a.b", ".hidden", "x."] {
        assert_eq!(format!("{}.{}", strip_dot_extension(name), extension_of(name)), name);
    }
    assert_eq!(strip_dot_extension("plain"), "plain");
    assert_eq!(extension_of("plain"), "");
}

#[test]
fn systemd_unit_twice_is_systemd_unit_once() {
    for unit in ["voicebox", "voicebox.service", "a.b.c", ""] {
        let once = systemd_unit(unit);
        assert_eq!(systemd_unit(&once), once);
        assert!(once.contains('.'));
    }
}

#[test]
fn unit_file_is_the_link_install_creates() {
    let steps = install_links(false, "/t", &strings(&["/p/voicebox.container"]));
    match &steps[0] {
        Step::Link { dest, .. } => {
            assert_eq!(*dest, unit_file("/t", &strip_dot_extension("voicebox.container")))
        }
        other => panic!("{other:?}"),
    }
}

#[test]
fn uninstall_removes_exactly_what_install_links() {
    let files = strings(&["/p/a.container", "/p/b.volume", "/p/c.network"]);
    let linked: Vec<String> = install_links(false, "/t", &files)
        .into_iter()
        .filter_map(|s| match s {
            Step::Link { dest, .. } => Some(dest),
            _ => None,
        })
        .collect();
    let removed: Vec<String> = uninstall(false, "/t", &files, &[true, true, true])
        .into_iter()
        .filter_map(|s| match s {
            Step::RemoveFile(f) => Some(f),
            _ => None,
        })
        .collect();
    assert_eq!(linked, removed);
    assert_eq!(removed, strings(&["/t/a.container", "/t/b.volume", "/t/c.network"]));
}

#[test]
fn dry_run_reports_the_command_it_would_run() {
    let units = strings(&["voicebox"]);
    let real = unit_action(false, "stop", &units, &[true]);
    let dry = unit_action(true, "stop", &units, &[true]);
    match (&real[0], &dry[0]) {
        (Step::Run { command, .. }, Step::Say(line)) => {
            assert_eq!(*line, format!("DRY-RUN {}", command.display()))
        }
        other => panic!("{other:?}"),
    }
    match (reload(false), reload(true)) {
        (Step::Run { command, .. }, Step::Say(line)) => {
            assert_eq!(line, format!("DRY-RUN {}", command.display()))
        }
        other => panic!("{other:?}"),
    }
}
