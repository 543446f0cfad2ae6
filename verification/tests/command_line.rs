use zc::cli::{launch, parse_command, setup, update, Command};
use zc::exec::Step;

fn args(v: &[&str]) -> Vec<String> {
    v.iter().map(|s| s.to_string()).collect()
}

#[test]
fn single_words() {
    assert_eq!(parse_command(&args(&["zc"])), Command::Help);
    assert_eq!(parse_command(&args(&["zc", "-h"])), Command::Help);
    assert_eq!(parse_command(&args(&["zc", "--help"])), Command::Help);
    assert_eq!(parse_command(&args(&["zc", "ps"])), Command::Ps);
    assert_eq!(parse_command(&args(&["zc", "dist"])), Command::Dist);
    assert_eq!(parse_command(&args(&["zc", "images"])), Command::Images);
    assert_eq!(parse_command(&args(&["zc", "nmap"])), Command::Nmap);
    assert_eq!(parse_command(&args(&["zc", "launch"])), Command::Launch);
    assert_eq!(parse_command(&args(&["zc", "download_conf"])), Command::DownloadConf);
    assert_eq!(parse_command(&args(&["zc", "download_auth"])), Command::DownloadAuth);
    assert_eq!(parse_command(&args(&["zc", "setup"])), Command::Setup);
    assert_eq!(parse_command(&args(&["zc", "pull"])), Command::Pull);
    assert_eq!(parse_command(&args(&["zc", "nmap_inf"])), Command::NmapInf);
    assert_eq!(parse_command(&args(&["zc", "wg0ip"])), Command::Wg0ip);
    assert_eq!(parse_command(&args(&["zc", "logs"])), Command::Logs);
    assert_eq!(parse_command(&args(&["zc", "nodes"])), Command::Nodes);
    assert_eq!(parse_command(&args(&["zc", "restart"])), Command::Restart);
    assert_eq!(parse_command(&args(&["zc", "servers"])), Command::Servers);
    assert_eq!(parse_command(&args(&["zc", "add_worker"])), Command::AddWorker);
    assert_eq!(parse_command(&args(&["zc", "kill"])), Command::Kill);
    assert_eq!(parse_command(&args(&["zc", "connect"])), Command::Connect);
    assert_eq!(parse_command(&args(&["zc", "update"])), Command::Update);
    assert_eq!(parse_command(&args(&["zc", "rmi"])), Command::Rmi);
    assert_eq!(parse_command(&args(&["zc", "--version"])), Command::Version);
    assert_eq!(parse_command(&args(&["zc", "-v"])), Command::Version);
    assert_eq!(parse_command(&args(&["zc", "vars"])), Command::Vars);
    assert_eq!(parse_command(&args(&["zc", "workers"])), Command::Workers);
    assert_eq!(parse_command(&args(&["zc", "bogus"])), Command::Help);
}

#[test]
fn two_words() {
    assert_eq!(parse_command(&args(&["zc", "--docker", "rm"])), Command::RemoveContainer);
    assert_eq!(parse_command(&args(&["zc", "-d", "rm"])), Command::RemoveContainer);
    assert_eq!(parse_command(&args(&["zc", "-d", "ls /"])), Command::Zk0("ls /".to_string()));
    assert_eq!(parse_command(&args(&["zc", "push", "hub"])), Command::Push("hub".to_string()));
    assert_eq!(parse_command(&args(&["zc", "context", "/c"])), Command::Context("/c".to_string()));
    assert_eq!(parse_command(&args(&["zc", "build", "hub"])), Command::Build(args(&["zc", "build", "hub"])));
    assert_eq!(parse_command(&args(&["zc", "ps", "x"])), Command::Help);
}

#[test]
fn longer_command_lines() {
    let b = args(&["zc", "build", "hub", "network"]);
    assert_eq!(parse_command(&b), Command::Build(b.clone()));
    assert_eq!(parse_command(&args(&["zc", "push", "a", "b"])), Command::Help);
}

#[test]
fn composed_commands() {
    assert_eq!(launch(), vec![Command::Pull, Command::Kill, Command::Restart]);
    assert_eq!(
        setup(),
        vec![Command::DownloadAuth, Command::DownloadConf, Command::Pull, Command::Kill, Command::Restart]
    );
    assert_eq!(update(), Step::Cmd("curl https://get.zakuro.ai/zc | sh".to_string(), None));
}
