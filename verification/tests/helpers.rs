use qctl::menu::parse_menu_selection;
use qctl::names::{strip_dot_extension, systemd_unit};
use qctl::volume::parse_volume_name;

#[test]
fn strip_dot_extension_removes_only_the_last_extension() {
    assert_eq!(strip_dot_extension("voicebox.container"), "voicebox");
    assert_eq!(strip_dot_extension("voicebox"), "voicebox");
    assert_eq!(
        strip_dot_extension("voicebox.prod.container"),
        "voicebox.prod"
    );
}

#[test]
fn systemd_unit_adds_service_suffix_only_for_plain_names() {
    assert_eq!(systemd_unit("voicebox"), "voicebox.service");
    assert_eq!(systemd_unit("voicebox.service"), "voicebox.service");
    assert_eq!(systemd_unit("voicebox.container"), "voicebox.container");
}

#[test]
fn parse_volume_name_reads_non_empty_volume_name() {
    let content = "[Volume]\nVolumeName=voicebox-data\n";
    assert_eq!(parse_volume_name(content).as_deref(), Some("voicebox-data"));
}

#[test]
fn parse_volume_name_ignores_missing_or_empty_names() {
    assert_eq!(parse_volume_name("[Volume]\n"), None);
    assert_eq!(parse_volume_name("VolumeName=\n"), None);
    assert_eq!(parse_volume_name("VolumeName=   \n"), None);
}

#[test]
fn parse_menu_selection_accepts_number_first_or_action_first() {
    assert_eq!(parse_menu_selection(&["2"]).unwrap(), (2, None));
    assert_eq!(parse_menu_selection(&["2", "r"]).unwrap(), (2, Some("r")));
    assert_eq!(
        parse_menu_selection(&["restart", "3"]).unwrap(),
        (3, Some("restart"))
    );
    assert!(parse_menu_selection(&["restart"]).is_err());
}
