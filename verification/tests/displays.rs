use sysfetch::displays::connector_mode;
use sysfetch::displays::get_displays;
use sysfetch::displays::is_output_name;
use sysfetch::displays::wants_modes;
use sysfetch::displays::wants_status;
use sysfetch::displays::Connector;

fn connector(name: &str, status: &str, modes: Option<&str>) -> Connector {
    Connector {
        name: name.to_string(),
        has_status: true,
        has_edid: true,
        status: status.to_string(),
        modes: modes.map(|m| m.to_string()),
    }
}

#[test]
fn output_names() {
    assert!(is_output_name("card0-HDMI-A-1"));
    assert!(is_output_name("card1-DP-2"));
    assert!(is_output_name("card0-eDP-1"));
    assert!(is_output_name("card12-DVI-D-10"));
    assert!(is_output_name("CARD0-hdmi-a-1"));
    assert!(!is_output_name("card0"));
    assert!(!is_output_name("renderD128"));
    assert!(!is_output_name("version"));
    assert!(!is_output_name("card0-HDMI-A-1 "));
    assert!(!is_output_name("xcard0-HDMI-A-1"));
    assert!(!is_output_name("card-HDMI-A-1"));
    assert!(!is_output_name("card0-VGA2-1"));
    assert!(!is_output_name(""));
}

#[test]
fn mode_of_a_connected_output() {
    assert_eq!(
        connector_mode(true, true, true, "connected\n", Some("2560x1440\n1920x1080\n")),
        Some("2560x1440".to_string())
    );
    assert_eq!(connector_mode(true, true, true, " connected ", Some("a")), Some("a".to_string()));
}

#[test]
fn no_mode_without_every_condition() {
    let modes = Some("2560x1440\n");
    assert_eq!(connector_mode(false, true, true, "connected", modes), None);
    assert_eq!(connector_mode(true, false, true, "connected", modes), None);
    assert_eq!(connector_mode(true, true, false, "connected", modes), None);
    assert_eq!(connector_mode(true, true, true, "disconnected", modes), None);
    assert_eq!(connector_mode(true, true, true, "Connected", modes), None);
    assert_eq!(connector_mode(true, true, true, "", modes), None);
    assert_eq!(connector_mode(true, true, true, "connected", None), None);
    assert_eq!(connector_mode(true, true, true, "connected", Some("")), None);
}

#[test]
fn empty_first_mode_line_is_listed() {
    assert_eq!(connector_mode(true, true, true, "connected", Some("\n1x1")), Some(String::new()));
}

#[test]
fn no_displays() {
    assert_eq!(get_displays(&vec![]), "None found");
    let c = vec![connector("card0-HDMI-A-1", "disconnected\n", Some("1x1\n")), connector("card0", "connected\n", Some("1x1\n"))];
    assert_eq!(get_displays(&c), "None found");
}

#[test]
fn one_display() {
    let c = vec![
        connector("card0", "connected\n", Some("9x9\n")),
        connector("card0-DP-1", "disconnected\n", Some("")),
        connector("card0-HDMI-A-1", "connected\n", Some("1920x1080\n1280x720\n")),
    ];
    assert_eq!(get_displays(&c), "╰ 1920x1080");
}

#[test]
fn several_displays_in_order() {
    let mut without_edid = connector("card0-DP-3", "connected\n", Some("7x7\n"));
    without_edid.has_edid = false;
    let mut without_status = connector("card0-DP-4", "connected\n", Some("8x8\n"));
    without_status.has_status = false;
    let c = vec![
        connector("card0-eDP-1", "connected\n", Some("2560x1600\n")),
        without_edid,
        connector("card0-DP-1", "connected\n", Some("3840x2160\n1920x1080\n")),
        without_status,
        connector("card1-HDMI-A-1", "connected\n", Some("1920x1080")),
        connector("card1-HDMI-A-2", "connected\n", None),
    ];
    assert_eq!(get_displays(&c), "│ 2560x1600\n│ 3840x2160\n╰ 1920x1080");
}

#[test]
fn status_is_read_of_outputs_with_both_files() {
    assert!(wants_status("card0-HDMI-A-1", true, true));
    assert!(!wants_status("card0-HDMI-A-1", false, true));
    assert!(!wants_status("card0-HDMI-A-1", true, false));
    assert!(!wants_status("card0", true, true));
    assert!(!wants_status("renderD128", true, true));
}

#[test]
fn modes_are_read_of_connected_outputs() {
    assert!(wants_modes("connected\n"));
    assert!(wants_modes("  connected"));
    assert!(!wants_modes("disconnected\n"));
    assert!(!wants_modes("unknown\n"));
    assert!(!wants_modes(""));
}

#[test]
fn files_that_are_not_read_change_nothing() {
    // What the directory holds, and what is read of it when the two
    // questions are asked first.
    let all = vec![
        connector("card0", "connected\n", Some("9x9\n")),
        connector("card0-DP-1", "disconnected\n", Some("8x8\n")),
        connector("card0-HDMI-A-1", "connected\n", Some("1920x1080\n1280x720\n")),
        connector("card0-eDP-1", "connected\n", Some("2560x1600\n")),
    ];
    let read: Vec<Connector> = all
        .iter()
        .map(|c| {
            let status = wants_status(&c.name, c.has_status, c.has_edid);
            let modes = status && wants_modes(&c.status);
            Connector {
                name: c.name.clone(),
                has_status: c.has_status,
                has_edid: c.has_edid,
                status: if status { c.status.clone() } else { String::new() },
                modes: if modes { c.modes.clone() } else { None },
            }
        })
        .collect();
    assert_eq!(read[0].status, "");
    assert_eq!(read[1].modes, None);
    assert_eq!(get_displays(&read), get_displays(&all));
    assert_eq!(get_displays(&read), "│ 1920x1080\n╰ 2560x1600");
}
