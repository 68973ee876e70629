use sysfetch::desktop::de_probe;
use sysfetch::desktop::get_de;
use sysfetch::desktop::write_de_line;
use sysfetch::pattern::find_first;
use sysfetch::shell::get_shell;
use sysfetch::shell::shell_probe;
use sysfetch::shell::write_shell_line;
use sysfetch::terminal::get_term;
use sysfetch::terminal::term_probe;
use sysfetch::terminal::write_term_line;

fn some(s: &str) -> Option<String> {
    Some(s.to_string())
}

#[test]
fn first_match_of_a_pattern() {
    assert_eq!(find_first(r"\d+", "abc 123 def 456"), some("123"));
    assert_eq!(find_first(r"\d+", "abc"), None);
    assert_eq!(find_first(r"(", "abc"), None);
    assert_eq!(find_first(r"", "abc"), some(""));
}

#[test]
fn only_zsh_is_asked() {
    assert_eq!(shell_probe("zsh"), Some("zsh"));
    assert_eq!(shell_probe("bash"), None);
    assert_eq!(shell_probe("zsh "), None);
    assert_eq!(shell_probe(""), None);
}

#[test]
fn shell_names_count_in_lower_case() {
    assert_eq!(shell_probe("Zsh"), Some("zsh"));
    assert_eq!(shell_probe("ZSH"), Some("zsh"));
    assert_eq!(get_shell("ZSH", None), some("zsh ?.?"));
    assert_eq!(get_shell("Zsh", Some("zsh 5.9 (x86_64)")), some("zsh 5.9"));
    assert_eq!(get_shell("Bash", None), some("bash (unimplemented)"));
    assert_eq!(get_shell("NuShell", Some("x")), some("nushell (unimplemented)"));
    assert_eq!(get_shell("ÄSH", None), some("äsh (unimplemented)"));
    // What is written for a name that was lowered keeps the name as it is given.
    assert_eq!(write_shell_line("Zsh", false, None), some("Zsh (unimplemented)"));
}

#[test]
fn zsh_with_its_version() {
    assert_eq!(get_shell("zsh", Some("zsh 5.9 (x86_64-pc-linux-gnu)\n")), some("zsh 5.9"));
    assert_eq!(get_shell("zsh", Some("ZSH 5.8.1")), some("ZSH 5.8.1"));
}

#[test]
fn zsh_without_an_answer() {
    assert_eq!(get_shell("zsh", None), some("zsh ?.?"));
}

#[test]
fn zsh_without_a_version_in_its_answer() {
    assert_eq!(get_shell("zsh", Some("command not found")), None);
    assert_eq!(get_shell("zsh", Some("")), None);
}

#[test]
fn other_shells_are_marked() {
    assert_eq!(get_shell("bash", None), some("bash (unimplemented)"));
    assert_eq!(get_shell("fish", Some("zsh 5.9")), some("fish (unimplemented)"));
    assert_eq!(get_shell("", None), some(" (unimplemented)"));
}

#[test]
fn shell_line_from_what_was_found() {
    assert_eq!(write_shell_line("zsh", true, some("zsh 5.9")), some("zsh 5.9"));
    assert_eq!(write_shell_line("zsh", true, None), None);
    assert_eq!(write_shell_line("zsh", false, some("zsh 5.9")), some("zsh ?.?"));
    assert_eq!(write_shell_line("dash", true, None), some("dash (unimplemented)"));
}

#[test]
fn only_kitty_is_asked() {
    assert_eq!(term_probe("kitty"), Some("kitty"));
    assert_eq!(term_probe("alacritty"), None);
    assert_eq!(term_probe("kitty1"), None);
}

#[test]
fn terminal_names_count_in_lower_case() {
    assert_eq!(term_probe("Kitty"), Some("kitty"));
    assert_eq!(get_term("Kitty", Some("kitty 0.31.0 created by Kovid Goyal")), some("Kitty 0.31.0"));
    assert_eq!(get_term("KITTY", None), some("Kitty"));
    assert_eq!(get_term("Alacritty", None), some("alacritty (unimplemented)"));
    assert_eq!(get_term("WezTerm-GUI", Some("1.2.3")), some("wezterm-gui (unimplemented)"));
    // What is written for a name that was lowered keeps the name as it is given.
    assert_eq!(write_term_line("Kitty", false, None), some("Kitty (unimplemented)"));
}

#[test]
fn kitty_with_its_version() {
    assert_eq!(get_term("kitty", Some("kitty 0.31.0 created by Kovid Goyal\n")), some("Kitty 0.31.0"));
    assert_eq!(get_term("kitty", Some("1.2.3.4")), some("Kitty 1.2.3"));
}

#[test]
fn kitty_without_an_answer() {
    assert_eq!(get_term("kitty", None), some("Kitty"));
}

#[test]
fn kitty_without_a_version_in_its_answer() {
    assert_eq!(get_term("kitty", Some("kitty 0.31")), None);
}

#[test]
fn other_terminals_are_marked() {
    assert_eq!(get_term("alacritty", None), some("alacritty (unimplemented)"));
    assert_eq!(get_term("konsole", Some("1.2.3")), some("konsole (unimplemented)"));
}

#[test]
fn terminal_line_from_what_was_found() {
    assert_eq!(write_term_line("kitty", true, some("0.31.0")), some("Kitty 0.31.0"));
    assert_eq!(write_term_line("kitty", true, None), None);
    assert_eq!(write_term_line("kitty", false, some("0.31.0")), some("Kitty"));
    assert_eq!(write_term_line("xterm", true, None), some("xterm (unimplemented)"));
}

#[test]
fn only_kde_is_asked() {
    assert_eq!(de_probe(Some("Kde")), Some("plasmashell"));
    assert_eq!(de_probe(Some("Gnome")), None);
    assert_eq!(de_probe(Some("KDE")), None);
    assert_eq!(de_probe(None), None);
}

#[test]
fn kde_with_its_version() {
    assert_eq!(get_de(Some("Kde"), Some("plasmashell 5.27.10\n"), true, true), some("Kde 5.27.10 (Wayland + XWayland)"));
}

#[test]
fn kde_without_an_answer() {
    assert_eq!(get_de(Some("Kde"), None, false, true), some("Kde (X11)"));
}

#[test]
fn kde_without_a_version_in_its_answer() {
    assert_eq!(get_de(Some("Kde"), Some("plasmashell"), true, false), None);
}

#[test]
fn other_desktops_by_name() {
    assert_eq!(get_de(Some("Gnome"), None, true, false), some("Gnome (Wayland)"));
    assert_eq!(get_de(Some("Xfce"), Some("1.2.3"), false, true), some("Xfce (X11)"));
}

#[test]
fn no_desktop() {
    assert_eq!(get_de(None, None, false, false), some("Unknown (Unknown)"));
    assert_eq!(get_de(None, Some("5.27.10"), true, true), some("Unknown (Wayland + XWayland)"));
}

#[test]
fn display_servers() {
    assert_eq!(write_de_line(Some("Sway"), false, None, true, true), some("Sway (Wayland + XWayland)"));
    assert_eq!(write_de_line(Some("Sway"), false, None, true, false), some("Sway (Wayland)"));
    assert_eq!(write_de_line(Some("Sway"), false, None, false, true), some("Sway (X11)"));
    assert_eq!(write_de_line(Some("Sway"), false, None, false, false), some("Sway (Unknown)"));
}

#[test]
fn desktop_line_from_what_was_found() {
    assert_eq!(write_de_line(Some("Kde"), true, some("6.0.1"), false, false), some("Kde 6.0.1 (Unknown)"));
    assert_eq!(write_de_line(Some("Kde"), true, None, false, false), None);
    assert_eq!(write_de_line(Some("Kde"), false, some("6.0.1"), false, false), some("Kde (Unknown)"));
}
