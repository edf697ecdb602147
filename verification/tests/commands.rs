//! Launcher-command resolution per platform, the bootstrap probes, and
//! argument preparation for package-runner launches.

use tome::errors::McpError;
use tome::mcp::{bootstrap, get_os_specific_command, Os};
use tome::server::prepare_stdio_args;

#[test]
fn python_resolves_on_unix_only() {
    let rc = get_os_specific_command("python", Os::Linux).unwrap();
    assert_eq!(rc.program, "python");
    assert!(!rc.user_installed);
    assert!(matches!(
        get_os_specific_command("python", Os::Windows),
        Err(McpError::UnsupportedPlatform { .. })
    ));
}

#[test]
fn launchers_get_platform_suffixes() {
    assert_eq!(get_os_specific_command("uvx", Os::Windows).unwrap().program, "uvx.exe");
    assert_eq!(get_os_specific_command("uvx", Os::Linux).unwrap().program, "uvx");
    assert_eq!(get_os_specific_command("npx", Os::Windows).unwrap().program, "npx.cmd");
    assert_eq!(get_os_specific_command("npx", Os::MacOs).unwrap().program, "npx");
    assert_eq!(get_os_specific_command("node", Os::Windows).unwrap().program, "node.cmd");
    assert_eq!(get_os_specific_command("node", Os::Linux).unwrap().program, "node");
    assert_eq!(get_os_specific_command("bunx", Os::Windows).unwrap().program, "bunx.cmd");
    assert_eq!(get_os_specific_command("bunx", Os::Linux).unwrap().program, "bunx");
}

#[test]
fn user_installed_commands_run_on_macos_only() {
    let rc = get_os_specific_command("/Applications/imcp-server", Os::MacOs).unwrap();
    assert_eq!(rc.program, "/Applications/imcp-server");
    assert!(rc.user_installed);
    assert!(matches!(
        get_os_specific_command("/Applications/imcp-server", Os::Linux),
        Err(McpError::UnsupportedPlatform { .. })
    ));
    let rc = get_os_specific_command("/opt/Tinderbox/helper", Os::MacOs).unwrap();
    assert!(rc.user_installed);
}

#[test]
fn unknown_commands_are_refused() {
    match get_os_specific_command("deno", Os::Linux) {
        Err(McpError::UnsupportedCommand { command }) => assert_eq!(command, "deno"),
        other => panic!("expected a configuration error, got {:?}", other.map(|r| r.program)),
    }
}

#[test]
fn bootstrap_probes_both_launchers() {
    let (uvx, npx) = bootstrap(Os::Linux);
    assert_eq!(uvx.program, "uvx");
    assert_eq!(npx.program, "npx");
    let (uvx, npx) = bootstrap(Os::Windows);
    assert_eq!(uvx.program, "uvx.exe");
    assert_eq!(npx.program, "npx.cmd");
}

#[test]
fn npx_launches_get_the_yes_flag() {
    let args = prepare_stdio_args("npx", vec!["some-server".to_string()]);
    assert_eq!(args, vec!["-y".to_string(), "some-server".to_string()]);
    // Any command containing the runner's name counts, as a path would.
    let args = prepare_stdio_args("/usr/local/bin/npx", vec!["s".to_string()]);
    assert_eq!(args[0], "-y");
}

#[test]
fn other_launches_keep_their_args() {
    let args = prepare_stdio_args("uvx", vec!["server".to_string(), "--flag".to_string()]);
    assert_eq!(args, vec!["server".to_string(), "--flag".to_string()]);
}
