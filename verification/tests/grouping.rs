use sysfetch::grouping::group_by_name;

fn strings(items: &[&str]) -> Vec<String> {
    items.iter().map(|s| s.to_string()).collect()
}

#[test]
fn no_names_no_groups() {
    assert!(group_by_name(&vec![]).is_empty());
}

#[test]
fn groups_by_first_occurrence() {
    let groups = group_by_name(&strings(&["b", "a", "b", "c", "a", "b"]));
    let got: Vec<(String, Vec<usize>)> = groups.into_iter().map(|g| (g.name, g.members)).collect();
    assert_eq!(
        got,
        vec![
            ("b".to_string(), vec![0, 2, 5]),
            ("a".to_string(), vec![1, 4]),
            ("c".to_string(), vec![3]),
        ]
    );
}

#[test]
fn all_alike() {
    let groups = group_by_name(&strings(&["x"; 16]));
    assert_eq!(groups.len(), 1);
    assert_eq!(groups[0].members, (0..16).collect::<Vec<usize>>());
}

#[test]
fn all_different() {
    let names = strings(&["a", "A", " a", "a ", ""]);
    let groups = group_by_name(&names);
    assert_eq!(groups.len(), 5);
    for (i, g) in groups.iter().enumerate() {
        assert_eq!(g.name, names[i]);
        assert_eq!(g.members, vec![i]);
    }
}

#[test]
fn every_place_is_in_exactly_one_group() {
    let names: Vec<String> = (0..200u32).map(|i| format!("n{}", (i * i + 3 * i) % 17)).collect();
    let groups = group_by_name(&names);
    let mut seen = vec![0u32; names.len()];
    for g in &groups {
        assert!(!g.members.is_empty());
        for w in g.members.windows(2) {
            assert!(w[0] < w[1]);
        }
        for &m in &g.members {
            assert_eq!(names[m], g.name);
            seen[m] += 1;
        }
    }
    assert!(seen.iter().all(|&n| n == 1));
    for w in groups.windows(2) {
        assert!(w[0].members[0] < w[1].members[0]);
        assert_ne!(w[0].name, w[1].name);
    }
}
