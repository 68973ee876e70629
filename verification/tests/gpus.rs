use regex::Regex;
use sysfetch::gpus::classify;
use sysfetch::gpus::describe;
use sysfetch::gpus::get_gpus;
use sysfetch::gpus::list_gpus;
use sysfetch::gpus::pick_driver;
use sysfetch::gpus::summarize;
use sysfetch::gpus::Adapter;
use sysfetch::gpus::AdapterCnt;
use sysfetch::gpus::AdapterFacts;
use sysfetch::gpus::Driver;

fn adapter(name: &str, driver: &str, driver_info: &str, backend: &str) -> Adapter {
    Adapter {
        name: name.to_string(),
        driver: driver.to_string(),
        driver_info: driver_info.to_string(),
        backend: backend.to_string(),
    }
}

fn facts(name: &str, driver: Option<Driver>, vulkan: bool, gl: bool) -> AdapterFacts {
    AdapterFacts { name: name.to_string(), driver, vulkan, gl }
}

fn summary(name: &str, count: usize, drivers: Vec<Driver>, vulkan: bool, gl: bool, unrecognized: usize) -> AdapterCnt {
    AdapterCnt { count, name: name.to_string(), drivers, vulkan, gl, unrecognized_drivers: unrecognized }
}

fn fields(s: &AdapterCnt) -> (usize, String, Vec<Driver>, bool, bool, usize) {
    (s.count, s.name.clone(), s.drivers.clone(), s.vulkan, s.gl, s.unrecognized_drivers)
}

/// The entry as string concatenation and a final `trim_end_matches` write it.
fn entry_by_hand(s: &AdapterCnt) -> String {
    let mut out = s.name.clone() + " (";
    if s.gl && s.vulkan {
        out += "Vulkan/OpenGL, ";
    } else if s.gl {
        out += "OpenGL, ";
    } else if s.vulkan {
        out += "Vulkan, ";
    }
    for d in &s.drivers {
        out += match d {
            Driver::AMDgpu => "AMDgpu, ",
            Driver::Mesa => "Mesa, ",
        };
    }
    if s.unrecognized_drivers > 1 {
        out += format!("{} unrecognized drivers)", s.unrecognized_drivers).as_str();
    } else if s.unrecognized_drivers == 1 {
        out += "1 unrecognized driver)";
    } else {
        out = out.trim_end_matches(", ").to_string() + ")";
    }
    out
}

#[test]
fn driver_choice() {
    assert_eq!(pick_driver(true, true), Some(Driver::AMDgpu));
    assert_eq!(pick_driver(true, false), Some(Driver::AMDgpu));
    assert_eq!(pick_driver(false, true), Some(Driver::Mesa));
    assert_eq!(pick_driver(false, false), None);
}

#[test]
fn classify_radv() {
    let f = classify(&adapter(
        "AMD Radeon RX 6800 (RADV NAVI21)",
        "radv",
        "Mesa 23.1.3",
        "vulkan",
    ));
    assert_eq!(f.name, "AMD Radeon RX 6800 (RADV NAVI21)");
    assert_eq!(f.driver, Some(Driver::Mesa));
    assert!(f.vulkan);
    assert!(!f.gl);
}

#[test]
fn classify_takes_the_version_bracket_out() {
    let f = classify(&adapter(
        "AMD Radeon RX 6800 (navi21, LLVM 15.0.7, DRM 3.49, 6.1.0) ",
        "",
        "4.6 (Core Profile) Mesa 23.1.3",
        "gl",
    ));
    assert_eq!(f.name, "AMD Radeon RX 6800");
    assert_eq!(f.driver, Some(Driver::Mesa));
    assert!(!f.vulkan);
    assert!(f.gl);
}

#[test]
fn classify_amd_open_source_driver() {
    let f = classify(&adapter("AMD Radeon", "AMD open-source driver", "2023.Q1.1 mesa", "Vulkan"));
    assert_eq!(f.driver, Some(Driver::AMDgpu));
    assert!(f.vulkan);
    let f = classify(&adapter("NVIDIA GeForce", "NVIDIA", "535.54.03", "vulkan"));
    assert_eq!(f.driver, None);
}

#[test]
fn classify_agrees_with_the_patterns() {
    let fixer = Regex::new(r"(?i)\(.*(LLVM|DRM).*\)").unwrap();
    for name in ["a (LLVM 1) b (DRM 2) c", "x (llvm)", "(DRM)", "plain", "  (x) (y LLVM z) ", "(LLVM\n)"] {
        let f = classify(&adapter(name, "", "", ""));
        assert_eq!(f.name, fixer.replace(name, "").trim());
    }
    for backend in ["vulkan", "gl", "Gl", "OPENGL", "metal", "dx12", "webgpu", "empty", ""] {
        let f = classify(&adapter("n", "", "", backend));
        assert_eq!(f.vulkan, backend.to_lowercase().contains("vulkan"));
        assert_eq!(f.gl, backend.to_lowercase().contains("gl"));
    }
}

#[test]
fn summarize_nothing() {
    assert!(summarize(&vec![]).is_empty());
}

#[test]
fn summarize_by_name_in_order() {
    let all = vec![
        facts("B", Some(Driver::Mesa), true, false),
        facts("A", None, false, true),
        facts("B", None, false, true),
        facts("A", None, true, false),
        facts("C", Some(Driver::AMDgpu), false, false),
        facts("B", Some(Driver::AMDgpu), false, false),
    ];
    let got: Vec<_> = summarize(&all).iter().map(fields).collect();
    assert_eq!(
        got,
        vec![
            (3, "B".to_string(), vec![Driver::Mesa, Driver::AMDgpu], true, true, 1),
            (2, "A".to_string(), vec![], true, true, 2),
            (1, "C".to_string(), vec![Driver::AMDgpu], false, false, 0),
        ]
    );
}

#[test]
fn summaries_count_every_adapter_once() {
    let all: Vec<AdapterFacts> = (0..100u32)
        .map(|i| {
            facts(
                &format!("gpu{}", (i * 7 + i / 3) % 6),
                match i % 3 {
                    0 => Some(Driver::Mesa),
                    1 => Some(Driver::AMDgpu),
                    _ => None,
                },
                i % 2 == 0,
                i % 5 == 0,
            )
        })
        .collect();
    let sums = summarize(&all);
    assert_eq!(sums.iter().map(|s| s.count).sum::<usize>(), all.len());
    for s in &sums {
        assert!(s.count > 0);
        assert_eq!(s.count, all.iter().filter(|f| f.name == s.name).count());
        assert_eq!(s.drivers.len() + s.unrecognized_drivers, s.count);
        assert_eq!(s.gl, all.iter().any(|f| f.name == s.name && f.gl));
        assert_eq!(s.vulkan, all.iter().any(|f| f.name == s.name && f.vulkan));
    }
    for (i, a) in sums.iter().enumerate() {
        for b in &sums[i + 1..] {
            assert_ne!(a.name, b.name);
        }
    }
}

#[test]
fn describe_cases() {
    assert_eq!(describe(&summary("GPU", 1, vec![Driver::Mesa], true, true, 0)), "GPU (Vulkan/OpenGL, Mesa)");
    assert_eq!(describe(&summary("GPU", 1, vec![Driver::AMDgpu], true, false, 0)), "GPU (Vulkan, AMDgpu)");
    assert_eq!(describe(&summary("GPU", 1, vec![], false, true, 1)), "GPU (OpenGL, 1 unrecognized driver)");
    assert_eq!(describe(&summary("GPU", 3, vec![], false, false, 3)), "GPU (3 unrecognized drivers)");
    assert_eq!(
        describe(&summary("GPU", 4, vec![Driver::Mesa, Driver::Mesa], true, true, 2)),
        "GPU (Vulkan/OpenGL, Mesa, Mesa, 2 unrecognized drivers)"
    );
    assert_eq!(describe(&summary("GPU", 1, vec![], true, false, 0)), "GPU (Vulkan)");
    assert_eq!(describe(&summary("GPU", 0, vec![], false, false, 0)), "GPU ()");
    assert_eq!(describe(&summary("", 1, vec![Driver::Mesa], false, false, 0)), " (Mesa)");
}

#[test]
fn describe_agrees_with_the_concatenation_by_hand() {
    let names = ["GPU", "", "a, ", ", ", "x (", "Intel(R) UHD"];
    let driver_lists = [vec![], vec![Driver::Mesa], vec![Driver::AMDgpu, Driver::Mesa], vec![Driver::Mesa; 5]];
    for name in names {
        for drivers in &driver_lists {
            for bits in 0..4u8 {
                for unrecognized in [0usize, 1, 2, 10, 12345] {
                    let s = summary(name, drivers.len() + unrecognized, drivers.clone(), bits & 1 != 0, bits & 2 != 0, unrecognized);
                    assert_eq!(describe(&s), entry_by_hand(&s));
                }
            }
        }
    }
}

#[test]
fn list_of_no_gpus() {
    assert_eq!(list_gpus(&vec![]), "None... found?");
    assert_eq!(get_gpus(&vec![]), "None... found?");
}

#[test]
fn list_of_one_gpu() {
    let all = vec![facts("GPU", Some(Driver::Mesa), true, false), facts("GPU", Some(Driver::Mesa), false, true)];
    assert_eq!(list_gpus(&all), "╰ GPU (Vulkan/OpenGL, Mesa, Mesa)");
}

#[test]
fn list_of_several_gpus() {
    let all = vec![
        facts("Radeon", Some(Driver::Mesa), true, false),
        facts("llvmpipe", None, false, true),
        facts("Radeon", Some(Driver::AMDgpu), true, false),
        facts("GeForce", None, true, false),
        facts("GeForce", None, true, false),
    ];
    assert_eq!(
        list_gpus(&all),
        "│ Radeon (Vulkan, Mesa, AMDgpu)\n│ llvmpipe (OpenGL, 1 unrecognized driver)\n╰ GeForce (Vulkan, 2 unrecognized drivers)"
    );
}

#[test]
fn gpus_line_from_adapters() {
    let adapters = vec![
        adapter("AMD Radeon RX 6800 (RADV NAVI21)", "radv", "Mesa 23.1.3", "vulkan"),
        adapter("AMD Radeon RX 6800 (navi21, LLVM 15.0.7, DRM 3.49, 6.1.0)", "", "4.6 Mesa 23.1.3", "gl"),
        adapter("AMD Radeon RX 6800 (RADV NAVI21)", "AMD open-source driver", "", "vulkan"),
        adapter("llvmpipe (LLVM 15.0.7, 256 bits)", "llvmpipe", "Mesa 23.1.3 (LLVM 15.0.7)", "vulkan"),
    ];
    assert_eq!(
        get_gpus(&adapters),
        "│ AMD Radeon RX 6800 (RADV NAVI21) (Vulkan, Mesa, AMDgpu)\n│ AMD Radeon RX 6800 (OpenGL, Mesa)\n╰ llvmpipe (Vulkan, Mesa)"
    );
}
