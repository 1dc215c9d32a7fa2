use ce_core::config::{OsSpecific, RunOption, TargetOs};

fn run_option(run: OsSpecific, compile: Option<OsSpecific>) -> RunOption {
    RunOption { run, compile, watch: vec![], ignore: vec![] }
}

#[test]
fn unified_command_is_the_same_on_every_system() {
    let c = OsSpecific::Unified("./run.sh".to_string());
    assert_eq!(c.get(TargetOs::Windows), "./run.sh");
    assert_eq!(c.get(TargetOs::MacOs), "./run.sh");
    assert_eq!(c.get(TargetOs::Other), "./run.sh");
}

#[test]
fn unix_win_command_picks_windows_only_on_windows() {
    let c = OsSpecific::UnixWin { unix: "./run".to_string(), win: "run.exe".to_string() };
    assert_eq!(c.get(TargetOs::Windows), "run.exe");
    assert_eq!(c.get(TargetOs::MacOs), "./run");
    assert_eq!(c.get(TargetOs::Other), "./run");
}

#[test]
fn linux_mac_win_command_picks_per_system() {
    let c = OsSpecific::LinuxMacWin {
        linux: "bin/linux".to_string(),
        mac: "bin/mac".to_string(),
        win: "bin/win.exe".to_string(),
    };
    assert_eq!(c.get(TargetOs::Windows), "bin/win.exe");
    assert_eq!(c.get(TargetOs::MacOs), "bin/mac");
    assert_eq!(c.get(TargetOs::Other), "bin/linux");
}

#[test]
fn run_option_gives_run_and_compile_commands() {
    let o = run_option(
        OsSpecific::UnixWin { unix: "./run".to_string(), win: "run.exe".to_string() },
        Some(OsSpecific::Unified("dotnet build".to_string())),
    );
    assert_eq!(o.run(TargetOs::Other), "./run");
    assert_eq!(o.run(TargetOs::Windows), "run.exe");
    assert_eq!(o.compile(TargetOs::MacOs), Some("dotnet build"));
}

#[test]
fn run_option_without_compile_step_has_no_compile_command() {
    let o = run_option(OsSpecific::Unified("python3 main.py".to_string()), None);
    assert_eq!(o.run(TargetOs::MacOs), "python3 main.py");
    assert_eq!(o.compile(TargetOs::Windows), None);
    assert_eq!(o.compile(TargetOs::Other), None);
}
