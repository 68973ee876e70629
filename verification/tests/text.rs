use sysfetch::text::clean;
use sysfetch::text::format_tree_list;
use sysfetch::text::lines_of;
use sysfetch::text::push_decimal;
use sysfetch::text::push_spaces;
use sysfetch::text::take_first_line;

fn strings(items: &[&str]) -> Vec<String> {
    items.iter().map(|s| s.to_string()).collect()
}

/// The list as a loop over the entries and a final trim write it.
fn list_by_hand(items: &[&str], none: &str) -> String {
    if items.is_empty() {
        return none.to_string();
    } else if items.len() == 1 {
        return "╰ ".to_string() + items[0];
    }
    let mut out = String::new();
    for (i, item) in items.iter().enumerate() {
        if i == items.len() - 1 {
            out.push_str("\n╰ ");
        } else {
            out.push_str("\n│ ");
        }
        out.push_str(item);
    }
    out.trim().to_string()
}

#[test]
fn decimal_numbers() {
    for (n, want) in [
        (0u64, "0"),
        (7, "7"),
        (10, "10"),
        (99, "99"),
        (100, "100"),
        (1234567890, "1234567890"),
        (u64::MAX, "18446744073709551615"),
    ] {
        let mut s = String::new();
        push_decimal(&mut s, n);
        assert_eq!(s, want);
    }
}

#[test]
fn decimal_is_appended() {
    let mut s = String::from("n = ");
    push_decimal(&mut s, 42);
    push_decimal(&mut s, 0);
    assert_eq!(s, "n = 420");
}

#[test]
fn decimal_agrees_with_std() {
    let mut n: u64 = 1;
    for _ in 0..200 {
        let mut s = String::new();
        push_decimal(&mut s, n);
        assert_eq!(s, n.to_string());
        n = n.wrapping_mul(6364136223846793005).wrapping_add(1442695040888963407);
    }
}

#[test]
fn spaces_are_appended() {
    let mut s = String::from("x");
    push_spaces(&mut s, 0);
    assert_eq!(s, "x");
    push_spaces(&mut s, 3);
    assert_eq!(s, "x   ");
}

#[test]
fn first_line_cases() {
    assert_eq!(take_first_line(""), None);
    assert_eq!(take_first_line("1920x1080"), Some("1920x1080"));
    assert_eq!(take_first_line("1920x1080\n1280x720\n"), Some("1920x1080"));
    assert_eq!(take_first_line("1920x1080\r\n1280x720"), Some("1920x1080"));
    assert_eq!(take_first_line("\n"), Some(""));
    assert_eq!(take_first_line("\r\n"), Some(""));
    assert_eq!(take_first_line("\nabc"), Some(""));
    assert_eq!(take_first_line("abc\r"), Some("abc\r"));
    assert_eq!(take_first_line("a\rb\nc"), Some("a\rb"));
    assert_eq!(take_first_line("größe\nb"), Some("größe"));
}

#[test]
fn first_line_agrees_with_std() {
    let pieces = ["", "a", "\n", "\r", "\r\n", "é", "12x9", " "];
    for a in pieces {
        for b in pieces {
            for c in pieces {
                for d in pieces {
                    let s = format!("{}{}{}{}", a, b, c, d);
                    assert_eq!(take_first_line(&s), s.lines().next(), "{:?}", s);
                }
            }
        }
    }
}

#[test]
fn empty_list_gives_the_note() {
    assert_eq!(format_tree_list(&strings(&[]), "None found"), "None found");
    assert_eq!(format_tree_list(&strings(&[]), ""), "");
}

#[test]
fn single_entry_is_kept_as_it_is() {
    assert_eq!(format_tree_list(&strings(&["1920x1080"]), "None found"), "╰ 1920x1080");
    assert_eq!(format_tree_list(&strings(&[" a \n"]), "x"), "╰  a \n");
    assert_eq!(format_tree_list(&strings(&[""]), "x"), "╰ ");
}

#[test]
fn several_entries_are_branches() {
    assert_eq!(format_tree_list(&strings(&["a", "b"]), "x"), "│ a\n╰ b");
    assert_eq!(format_tree_list(&strings(&["a", "b", "c"]), "x"), "│ a\n│ b\n╰ c");
}

#[test]
fn list_is_trimmed_at_both_ends() {
    // The line break before the first entry goes, and white space behind the last.
    assert_eq!(format_tree_list(&strings(&["a", "b \t\n"]), "x"), "│ a\n╰ b");
    assert_eq!(format_tree_list(&strings(&["a", "b\u{3000}\u{a0}"]), "x"), "│ a\n╰ b");
    // An empty last entry loses the space behind its corner too.
    assert_eq!(format_tree_list(&strings(&["a", ""]), "x"), "│ a\n╰");
    // White space inside the list stays.
    assert_eq!(format_tree_list(&strings(&[" a ", " b"]), "x"), "│  a \n╰  b");
}

#[test]
fn list_agrees_with_the_loop_by_hand() {
    let pieces = ["", "a", " ", "b\n", "\u{2003}", "c d", "\u{200b}", "\r"];
    for a in pieces {
        for b in pieces {
            for c in pieces {
                for items in [vec![], vec![a], vec![a, b], vec![a, b, c]] {
                    assert_eq!(
                        format_tree_list(&strings(&items), "None"),
                        list_by_hand(&items, "None"),
                        "{:?}",
                        items
                    );
                }
            }
        }
    }
}

#[test]
fn cleaned_names() {
    assert_eq!(clean(Some(" AMD Radeon  "), "ignored"), "AMD Radeon");
    assert_eq!(clean(None, "\tAMD Radeon\n"), "AMD Radeon");
    assert_eq!(clean(Some(""), "x"), "");
    assert_eq!(clean(Some("\u{85}a\u{1680}b\u{2028}"), "x"), "a\u{1680}b");
    // A zero-width space is no white space.
    assert_eq!(clean(Some("\u{200b}a"), "x"), "\u{200b}a");
}

#[test]
fn white_space_is_what_std_trims() {
    for u in 0..=0x10FFFFu32 {
        if let Some(c) = char::from_u32(u) {
            let mut s = String::new();
            s.push(c);
            s.push('x');
            s.push(c);
            assert_eq!(clean(Some(&s), ""), s.trim(), "U+{:04X}", u);
        }
    }
}

#[test]
fn lines_of_a_text() {
    assert_eq!(lines_of("│ a\n│ b\n╰ c"), strings(&["│ a", "│ b", "╰ c"]));
    assert_eq!(lines_of("one"), strings(&["one"]));
    assert_eq!(lines_of(""), strings(&[""]));
    assert_eq!(lines_of("\n"), strings(&["", ""]));
    assert_eq!(lines_of("a\n\nb\n"), strings(&["a", "", "b", ""]));
    assert_eq!(lines_of("a\r\nb"), strings(&["a\r", "b"]));
}

#[test]
fn lines_agree_with_split() {
    let pieces = ["", "a", "\n", "\r", "é│", " b "];
    for a in pieces {
        for b in pieces {
            for c in pieces {
                for d in pieces {
                    let s = format!("{}{}{}{}", a, b, c, d);
                    let want: Vec<String> = s.split("\n").map(|l| l.to_string()).collect();
                    assert_eq!(lines_of(&s), want, "{:?}", s);
                }
            }
        }
    }
}
