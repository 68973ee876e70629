use regex::Regex;
use sysfetch::cpu::get_cpus;
use sysfetch::cpu::short_name;
use sysfetch::cpu::write_entry;
use sysfetch::cpu::CpuCnt;
use sysfetch::cpu::Usage;

fn usage(mean: &str, error: &str) -> Usage {
    Usage { mean: mean.to_string(), error: error.to_string() }
}

fn cpu(name: &str, count: usize, frequency: &str, usage: Option<Usage>) -> CpuCnt {
    CpuCnt { count, name: name.to_string(), frequency: frequency.to_string(), usage }
}

#[test]
fn short_names() {
    assert_eq!(short_name("AMD Ryzen 7 5800X 8-Core Processor"), "AMD Ryzen 7 5800X");
    assert_eq!(short_name("Intel(R) Core(TM) i7-8550U CPU @ 1.80GHz"), "Intel(R) Core(TM) i7-8550U  @ 1.80GHz");
    assert_eq!(short_name("AMD Phenom II X4 Quad-Core processor"), "AMD Phenom II X4");
    assert_eq!(short_name("Some{tm} Chip{R}"), "Some Chip");
    assert_eq!(short_name("  plain  "), "plain");
    assert_eq!(short_name("cpu"), "");
    assert_eq!(short_name(""), "");
}

#[test]
fn short_name_agrees_with_the_pattern() {
    let noise = Regex::new(r"(?i)(\{tm\}|\{r\}|CPU|Processor|Dual-Core|Quad-Core|Six-Core|Eight-Core|\d+-core)").unwrap();
    for name in [
        "AMD Ryzen 9 7950X 16-Core Processor",
        "Apple M1",
        "12th Gen Intel(R) Core(TM) i5-12400",
        "dual-core six-core EIGHT-CORE 64-core",
        "CPUCPU processorprocessor",
        "٣-core",
        " {TM} {r} ",
    ] {
        assert_eq!(short_name(name), noise.replace_all(name, "").trim());
    }
}

#[test]
fn entry_without_usage() {
    assert_eq!(write_entry("AMD Ryzen 7 5800X", 16, "3.8", None), "AMD Ryzen 7 5800X (16) @ 3.8GHz");
    assert_eq!(write_entry("", 0, "", None), " (0) @ GHz");
}

#[test]
fn entry_with_usage() {
    let u = usage("12.5", "0.3");
    assert_eq!(write_entry("AMD Ryzen 7 5800X", 16, "3.8", Some(&u)), "AMD Ryzen 7 5800X (16) @ 3.8GHz (12.5±0.3%)");
}

#[test]
fn entry_agrees_with_format() {
    for (name, count, freq, mean, err) in [("a", 1usize, 0.04f64, 99.96f64, 0.0f64), ("b c", 128, 5.25, 0.05, 12.349)] {
        let u = usage(&format!("{:.1}", mean), &format!("{:.1}", err));
        assert_eq!(
            write_entry(name, count, &format!("{:.1}", freq), Some(&u)),
            format!("{} ({}) @ {:.1}GHz ({:.1}±{:.1}%)", name, count, freq, mean, err)
        );
        assert_eq!(
            write_entry(name, count, &format!("{:.1}", freq), None),
            format!("{} ({}) @ {:.1}GHz", name, count, freq)
        );
    }
}

#[test]
fn no_cpus() {
    assert_eq!(get_cpus(&vec![]), "None... found?");
}

#[test]
fn one_cpu() {
    let cpus = vec![cpu("AMD Ryzen 7 5800X 8-Core Processor", 16, "3.8", None)];
    assert_eq!(get_cpus(&cpus), "╰ AMD Ryzen 7 5800X (16) @ 3.8GHz");
}

#[test]
fn several_cpus() {
    let cpus = vec![
        cpu("Cortex-A76 CPU", 4, "2.4", Some(usage("3.0", "1.5"))),
        cpu("Cortex-A55 CPU", 4, "1.8", Some(usage("10.0", "0.0"))),
    ];
    assert_eq!(get_cpus(&cpus), "│ Cortex-A76 (4) @ 2.4GHz (3.0±1.5%)\n╰ Cortex-A55 (4) @ 1.8GHz (10.0±0.0%)");
}
