use zc::common::{build, context, dist, dist_query, download_auth, download_conf, version_line};
use zc::exec::{cmd, cmd_result, stdout, zk0, zk0_result, Outcome, Step};
use zc::envs::Env;
use zc::manager::{
    add_worker, connect, images, kill, kill_query, nodes_line, nodes_query, ps, pull, push, remove_container,
    restart, rmi, server_list, workers, workers_report, listed_workers, StatusError, WorkerInfo, WorkersSource,
};
use zc::network::{wg0ip, Interface, Wg0Lookup};

fn tty(s: &str) -> Step {
    Step::Tty(s.to_string())
}

#[test]
fn command_line_of_cmd() {
    let mut e = Env::new();
    e.set("HOME".to_string(), "/h".to_string());
    assert_eq!(cmd("mkdir -p $HOME/config", None, &e), "mkdir -p $HOME/config");
    assert_eq!(cmd("mkdir -p $HOME/config", Some(false), &e), "mkdir -p $HOME/config");
    assert_eq!(cmd("$HOME/config", Some(true), &e), "/h/config");
    assert_eq!(stdout("echo hi"), "echo hi");
}

#[test]
fn results_of_captured_runs() {
    let ok = Outcome::Exited {
        success: true,
        status: "exit status: 0".to_string(),
        stdout: Ok("  x86_64\n".to_string()),
        stderr: Ok(String::new()),
    };
    assert_eq!(cmd_result(&ok), Ok("x86_64".to_string()));
    let bad_utf8 = Outcome::Exited {
        success: true,
        status: "exit status: 0".to_string(),
        stdout: Err("invalid utf-8".to_string()),
        stderr: Ok(String::new()),
    };
    assert_eq!(cmd_result(&bad_utf8), Err("Error converting output to string".to_string()));
    let failed = Outcome::Exited {
        success: false,
        status: "ExitStatus(unix_wait_status(256))".to_string(),
        stdout: Ok(String::new()),
        stderr: Ok("boom".to_string()),
    };
    assert_eq!(cmd_result(&failed), Err("Command failed with error: ExitStatus(unix_wait_status(256))".to_string()));
    let spawn = Outcome::SpawnFailed("No such file or directory (os error 2)".to_string());
    assert_eq!(
        cmd_result(&spawn),
        Err("Error spawning subprocess: No such file or directory (os error 2)".to_string())
    );
}

#[test]
fn runs_inside_zk0() {
    assert_eq!(zk0("ls -l"), vec!["exec", "-i", "zk0", "bash", "-c", "ls -l"]);
    let ok = Outcome::Exited {
        success: true,
        status: String::new(),
        stdout: Ok(" 10.13.13.4 \n".to_string()),
        stderr: Ok(String::new()),
    };
    assert_eq!(zk0_result(&ok), Ok(Some("10.13.13.4".to_string())));
    let failed = Outcome::Exited {
        success: false,
        status: String::new(),
        stdout: Ok(String::new()),
        stderr: Ok("no such container".to_string()),
    };
    assert_eq!(zk0_result(&failed), Ok(None));
    let failed_bad = Outcome::Exited {
        success: false,
        status: String::new(),
        stdout: Ok(String::new()),
        stderr: Err("bad utf-8".to_string()),
    };
    assert_eq!(zk0_result(&failed_bad), Err("bad utf-8".to_string()));
    assert_eq!(zk0_result(&Outcome::SpawnFailed("gone".to_string())), Err("gone".to_string()));
}

#[test]
fn kill_stops_then_removes_each_container() {
    assert_eq!(kill_query(), Step::Cmd("ids=$(docker ps --filter 'name=zk0*' -a -q);echo $ids".to_string(), None));
    assert_eq!(
        kill(&Ok("abc def".to_string())),
        vec![tty("docker stop abc"), tty("docker rm abc"), tty("docker stop def"), tty("docker rm def")]
    );
    assert_eq!(kill(&Ok("a".to_string())), vec![]);
    assert_eq!(kill(&Ok(String::new())), vec![]);
    assert_eq!(kill(&Ok("é".to_string())), vec![tty("docker stop é"), tty("docker rm é")]);
    assert_eq!(kill(&Err("no docker".to_string())), vec![]);
}

#[test]
fn rmi_kills_then_removes_images() {
    assert_eq!(
        rmi(&Ok("ab".to_string())),
        vec![
            tty("docker stop ab"),
            tty("docker rm ab"),
            tty("docker rmi -f $(docker images --filter \"label=maintainer=dev@zakuro.ai\" -a -q)"),
        ]
    );
    assert_eq!(rmi(&Err(String::new())).len(), 1);
}

#[test]
fn push_needs_image_and_architecture() {
    assert_eq!(
        push(Some("network"), &Ok("arm64".to_string())),
        Some(Step::Cmd(
            "docker tag zakuroai/network:latest zakuroai/network:arm64 && docker push zakuroai/network:arm64 && docker rmi zakuroai/network:arm64".to_string(),
            None
        ))
    );
    assert_eq!(push(None, &Ok("arm64".to_string())), None);
    assert_eq!(push(Some("network"), &Err("x".to_string())), None);
}

#[test]
fn listing_commands() {
    assert_eq!(images(), tty("docker images --filter \"label=maintainer=dev@zakuro.ai\" -a"));
    assert_eq!(ps(), tty("docker ps --filter \"label=maintainer=dev@zakuro.ai\" -a"));
    assert_eq!(remove_container(), Step::Cmd("docker stop zk0 && docker rm zk0".to_string(), None));
    assert_eq!(add_worker(), Step::Cmd("docker exec -d zk0 bash -c '/spark'".to_string(), Some(true)));
    assert_eq!(connect(), tty("docker exec -it -e TERM=xterm-256color zk0 /bin/bash"));
    assert_eq!(server_list(), Step::Zk0("jupyter-server list".to_string()));
    assert_eq!(nodes_query(), Step::Cmd("nmap -sP 10.13.13.0/24 -oG - | awk '/Up$/{print $2}'".to_string(), None));
    assert_eq!(nodes_line("10.13.13.2\n10.13.13.3"), "10.13.13.2|10.13.13.3");
}

#[test]
fn pull_three_images() {
    let steps = pull(&Ok("amd64".to_string()));
    assert_eq!(steps.len(), 9);
    assert_eq!(steps[0], tty("docker pull zakuroai/network:amd64"));
    assert_eq!(steps[1], tty("docker tag zakuroai/network:amd64 zakuroai/network:latest"));
    assert_eq!(steps[2], tty("docker rmi zakuroai/network:amd64"));
    assert_eq!(steps[3], tty("docker pull zakuroai/storage:amd64"));
    assert_eq!(steps[8], tty("docker rmi zakuroai/compute:amd64"));
    assert_eq!(pull(&Err("x".to_string())), vec![]);
}

#[test]
fn restart_in_context() {
    assert_eq!(restart(Some("/ctx")), Some(tty("cd /ctx && docker compose down && docker compose up -d")));
    assert_eq!(restart(None), None);
}

#[test]
fn where_workers_come_from() {
    assert_eq!(
        workers(&Ok(Some("10.13.13.5".to_string()))),
        WorkersSource::Master("http://10.13.13.2:8080/json".to_string())
    );
    assert_eq!(workers(&Ok(None)), WorkersSource::Zk0("zc workers".to_string()));
    assert_eq!(workers(&Err("e".to_string())), WorkersSource::Failed("e".to_string()));
}

#[test]
fn report_on_workers() {
    let w = WorkerInfo {
        host: "\"10.0.0.1\"".to_string(),
        state: "\"ALIVE\"".to_string(),
        memory: "1024".to_string(),
        cores: "4".to_string(),
    };
    assert_eq!(
        workers_report(&Some(vec![w])),
        vec!["Host: \"10.0.0.1\"", "State: \"ALIVE\"", "Memory: 1024", "Core: 4", "--------------------------"]
    );
    assert_eq!(workers_report(&Some(vec![])), Vec::<String>::new());
    assert_eq!(workers_report(&None), vec!["No workers found"]);
}

#[test]
fn cluster_address() {
    let ifs = vec![
        Interface { name: "eth0".to_string(), addr: Some("10.13.13.9:0".to_string()) },
        Interface { name: "wg0".to_string(), addr: None },
        Interface { name: "wg0".to_string(), addr: Some("192.168.1.2:0".to_string()) },
        Interface { name: "wg0".to_string(), addr: Some("10.13.13.7:0".to_string()) },
        Interface { name: "wg0".to_string(), addr: Some("10.13.13.8:0".to_string()) },
    ];
    assert_eq!(wg0ip(&ifs, None), Wg0Lookup::Found("10.13.13.7".to_string()));
    let none = vec![Interface { name: "lo".to_string(), addr: Some("127.0.0.1:0".to_string()) }];
    assert_eq!(wg0ip(&none, Some(true)), Wg0Lookup::NotFound);
    assert_eq!(wg0ip(&none, Some(false)), Wg0Lookup::AskZk0("zc wg0ip".to_string()));
    assert_eq!(wg0ip(&vec![], None), Wg0Lookup::AskZk0("zc wg0ip".to_string()));
}

#[test]
fn cluster_address_has_no_trailing_port() {
    let ifs = vec![Interface { name: "wg0".to_string(), addr: Some("10.13.13.2:0:0".to_string()) }];
    match wg0ip(&ifs, None) {
        Wg0Lookup::Found(a) => {
            assert!(a.starts_with("10.13.13"));
            assert!(!a.ends_with(":0"));
        }
        other => panic!("unexpected {:?}", other),
    }
}

#[test]
fn architecture() {
    assert_eq!(dist_query(), Step::Cmd("echo $(uname -m)".to_string(), None));
    assert_eq!(dist(Ok("x86_64".to_string())), Ok("x86_64".to_string()));
    assert_eq!(dist(Err("boom".to_string())), Err("Couldn't extract dist".to_string()));
}

#[test]
fn build_maps_the_architecture() {
    let args: Vec<String> = vec!["zc", "build", "network", "hub"].iter().map(|s| s.to_string()).collect();
    assert_eq!(
        build(Some(args.clone()), Ok("arm64".to_string())),
        Some(Step::Cmd("BUILDARCH=aarch64 BUILDARCHI=arm64 docker compose build network hub".to_string(), None))
    );
    assert_eq!(
        build(Some(args.clone()), Ok("amd64".to_string())),
        Some(Step::Cmd("BUILDARCH=x86_64 BUILDARCHI=amd64 docker compose build network hub".to_string(), None))
    );
    assert_eq!(
        build(Some(args.clone()), Ok("riscv64".to_string())),
        Some(Step::Cmd("BUILDARCH=riscv64 BUILDARCHI=riscv64 docker compose build network hub".to_string(), None))
    );
    assert_eq!(
        build(Some(vec!["zc".to_string()]), Ok("arm64".to_string())),
        Some(Step::Cmd("BUILDARCH=aarch64 BUILDARCHI=arm64 docker compose build ".to_string(), None))
    );
    assert_eq!(build(None, Ok("arm64".to_string())), None);
    assert_eq!(build(Some(args), Err("e".to_string())), None);
}

#[test]
fn configuration_download() {
    let steps = download_conf(Some("/z"));
    assert_eq!(steps.len(), 9 * 2 + 1 + 5 * 2);
    assert_eq!(steps[0], Step::Echo("mkdir -p /z/config".to_string()));
    assert_eq!(steps[1], Step::Cmd("mkdir -p /z/config".to_string(), Some(true)));
    assert_eq!(steps[17], Step::Cmd("mkdir -p /z/bin".to_string(), Some(true)));
    assert_eq!(steps[18], tty("wget -q 'http://get.zakuro.ai/zk0?config=default' -O /z/default-zakuro.yml"));
    assert_eq!(steps[19], tty("wget -q 'http://get.zakuro.ai/zk0?config=network' -O /z/network/network-zakuro.yml"));
    assert_eq!(steps[20], tty("wget -q 'http://get.zakuro.ai/zk0?config=network_env' -O /z/network/.env"));
    assert_eq!(steps[28], tty("wget -q 'http://get.zakuro.ai/zk0?config=hub_env' -O /z/hub/.env"));
    assert_eq!(download_conf(None), vec![]);
}

#[test]
fn credentials_download() {
    assert_eq!(
        download_auth(Some("/ctx"), Some("KEY")),
        Some(Step::Cmd(
            "curl -s --location --request GET 'https://get.zakuro.ai/profile' --header 'Content-Type: application/json' --data '{\"pkey\": \"KEY\"}' > /ctx/config/wg0.conf".to_string(),
            Some(false)
        ))
    );
    assert_eq!(download_auth(None, Some("KEY")), None);
    assert_eq!(download_auth(Some("/ctx"), None), None);
}

#[test]
fn context_line_is_replaced() {
    let script = "export ZAKURO_HOME=/z\nexport ZAKURO_CONTEXT=/old\nexport X=1";
    assert_eq!(
        context(script, "/new"),
        "export ZAKURO_HOME=/z\nexport X=1\nexport ZAKURO_CONTEXT=/new"
    );
    assert_eq!(context("", "/p"), "\nexport ZAKURO_CONTEXT=/p");
}

#[test]
fn context_set_twice_keeps_the_second() {
    let script = "export A=1\nexport ZAKURO_CONTEXT=/old\n";
    let once = context(script, "/first");
    assert_eq!(context(&once, "/second"), context(script, "/second"));
    assert_eq!(context(&context(script, "/p"), "/p"), context(script, "/p"));
}

#[test]
fn version_text() {
    assert_eq!(
        version_line("0.1.0", Some("abc123"), "2024-01-01 00:00:00 +00:00"),
        Some("zc version 0.1.0, build abc123 on 2024-01-01 00:00:00 +00:00".to_string())
    );
    assert_eq!(version_line("0.1.0", None, "t"), None);
}

#[test]
fn workers_from_the_master_status() {
    let body = br#"{"workers":[{"host":"10.13.13.5","state":"ALIVE","memory":15360,"cores":8},{"host":"h2"}]}"#;
    let listed = listed_workers(body).expect("json").expect("workers");
    assert_eq!(
        listed,
        vec![
            WorkerInfo {
                host: "\"10.13.13.5\"".to_string(),
                state: "\"ALIVE\"".to_string(),
                memory: "15360".to_string(),
                cores: "8".to_string(),
            },
            WorkerInfo {
                host: "\"h2\"".to_string(),
                state: "null".to_string(),
                memory: "null".to_string(),
                cores: "null".to_string(),
            },
        ]
    );
    assert_eq!(workers_report(&Some(listed))[0], "Host: \"10.13.13.5\"");
}

#[test]
fn master_status_without_workers() {
    assert_eq!(listed_workers(br#"{"aliveworkers":0}"#), Ok(None));
    assert_eq!(listed_workers(br#"{"workers":[]}"#), Ok(Some(vec![])));
    assert_eq!(listed_workers(br#"{"workers":3}"#), Err(StatusError::NotAList));
    assert!(matches!(listed_workers(b"<html>"), Err(StatusError::Parse(_))));
    assert!(matches!(listed_workers(b""), Err(StatusError::Parse(_))));
}

#[test]
fn status_parse_error_is_the_parsers_message() {
    let expected = serde_json::from_slice::<serde_json::Value>(b"<html>").unwrap_err().to_string();
    assert_eq!(listed_workers(b"<html>"), Err(StatusError::Parse(expected)));
}
