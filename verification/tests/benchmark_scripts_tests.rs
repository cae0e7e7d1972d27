use rustscan::benchmark::{Benchmark, NamedTimer};
use rustscan::input::ScriptsRequired;
use rustscan::ip::Ip;
use rustscan::scripts::{
    script_header_from_lines, select_scripts, Script, ScriptFile,
};

#[test]
fn benchmark() {
    let mut benchmarks = Benchmark::init();
    let mut test_timer = NamedTimer::start("test");
    test_timer.end();
    benchmarks.push(test_timer);
    benchmarks.push(NamedTimer::start("only_start"));
    assert!(benchmarks
        .summary()
        .contains("\nRustScan Benchmark Summary\ntest       | 0."));
    assert!(!benchmarks.summary().contains("only_start"));
}

#[test]
fn benchmark_summary_of_no_timers_is_the_heading() {
    let benchmarks = Benchmark::init();
    assert_eq!(benchmarks.summary(), "\nRustScan Benchmark Summary");
}

#[test]
fn script_header_is_the_comment_block_after_the_first_line() {
    let lines = vec![
        "#!/usr/bin/env sh".to_owned(),
        "#tags = [\"core_approved\", \"example\"]".to_owned(),
        "# ports_separator = \",\"  ".to_owned(),
        "echo hello".to_owned(),
        "# not part of the header".to_owned(),
    ];
    let header = script_header_from_lines(&lines);
    assert_eq!(
        header,
        "tags = [\"core_approved\", \"example\"]\nports_separator = \",\"\n"
    );
}

#[test]
fn script_header_of_a_bare_script_is_empty() {
    let lines = vec!["#!/usr/bin/env sh".to_owned(), "echo hello".to_owned()];
    assert_eq!(script_header_from_lines(&lines), "");
}

fn tagged_script(tags: Option<Vec<&str>>) -> ScriptFile {
    ScriptFile {
        path: Some("a_script".to_owned()),
        tags: tags.map(|ts| ts.into_iter().map(|t| t.to_owned()).collect()),
        developer: None,
        port: None,
        ports_separator: None,
        call_format: Some("nmap -vvv -p {{port}} {{ip}}".to_owned()),
    }
}

#[test]
fn select_scripts_by_level() {
    let none = select_scripts(&ScriptsRequired::NoScripts, &None, Vec::new());
    assert!(none.is_empty());

    let default = select_scripts(&ScriptsRequired::Default, &None, Vec::new());
    assert_eq!(default.len(), 1);
    assert_eq!(
        default[0].call_format.as_deref(),
        Some("nmap -vvv -p {{port}} -{{ipversion}} {{ip}}")
    );
    assert_eq!(
        default[0].tags,
        Some(vec![
            "core_approved".to_owned(),
            "RustScan".to_owned(),
            "default".to_owned()
        ])
    );

    let config_tags = Some(vec!["core_approved".to_owned(), "example".to_owned()]);
    let parsed = vec![
        tagged_script(Some(vec!["core_approved", "example"])),
        tagged_script(Some(vec!["core_approved", "other"])),
        tagged_script(None),
        tagged_script(Some(vec!["example"])),
    ];
    let custom = select_scripts(&ScriptsRequired::Custom, &config_tags, parsed);
    assert_eq!(custom.len(), 2);
    assert_eq!(
        custom[0].tags,
        Some(vec!["core_approved".to_owned(), "example".to_owned()])
    );
    assert_eq!(custom[1].tags, Some(vec!["example".to_owned()]));

    let no_tags = select_scripts(
        &ScriptsRequired::Custom,
        &None,
        vec![tagged_script(Some(vec!["core_approved"]))],
    );
    assert!(no_tags.is_empty());
}

#[test]
fn render_command_fills_the_placeholders() {
    let script = Script::build(
        None,
        Ip::v4(127, 0, 0, 1),
        vec![80, 8080],
        None,
        Some(",".to_owned()),
        None,
        Some("nmap -vvv -p {{port}} -{{ipversion}} {{ip}}".to_owned()),
    );
    let cmd = script.render_command("127.0.0.1").unwrap();
    assert_eq!(cmd, "nmap -vvv -p 80,8080 -4 127.0.0.1");
}

#[test]
fn render_command_uses_the_trigger_port_and_script_path() {
    let script = Script::build(
        Some("/tmp/probe.sh".to_owned()),
        Ip::V6(1),
        vec![80, 8080],
        Some("53".to_owned()),
        None,
        None,
        Some("{{script}} {{ip}} {{port}} v{{ipversion}}".to_owned()),
    );
    let cmd = script.render_command("::1").unwrap();
    assert_eq!(cmd, "/tmp/probe.sh ::1 53 v6");
}

#[test]
fn render_command_without_a_call_format_is_refused() {
    let script = Script::build(
        None,
        Ip::v4(127, 0, 0, 1),
        vec![80],
        None,
        None,
        None,
        None,
    );
    assert_eq!(
        script.render_command("127.0.0.1").unwrap_err(),
        "Failed to parse execution format."
    );
}
