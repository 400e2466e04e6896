use netdiscover::agg::ProbeResult;
use netdiscover::args::Args;
use netdiscover::subnet::Ipv4Subnet;
use netdiscover::config::{Config, ConfigError, ConfigLocalTools, ConfigSsh, PathPresence};
use netdiscover::scan::{DiscoveryTechnique, ScanEntity};

fn all_present() -> PathPresence {
    PathPresence {
        linux_bin_exists: true,
        windows_bin_exists: true,
        macos_bin_exists: true,
        key_file_exists: true,
    }
}

fn tools() -> Config {
    Config::Local_Tools(ConfigLocalTools {
        linux_x86_64_bin: "/opt/tool-linux".to_string(),
        windows_x86_64_bin: "C:\\tool.exe".to_string(),
        macos_x86_64_bin: "/opt/tool-macos".to_string(),
    })
}

fn ssh(password: &str, key_file: &str) -> Config {
    Config::Ssh(ConfigSsh {
        hostname: "host.example".to_string(),
        port: 22,
        username: "root".to_string(),
        password: password.to_string(),
        key_file: key_file.to_string(),
    })
}

#[test]
fn local_tools_all_present_passes() {
    assert!(tools().check_config(&all_present()).is_ok());
}

#[test]
fn local_tools_missing_binary_fails() {
    let mut p = all_present();
    p.windows_bin_exists = false;
    match tools().check_config(&p) {
        Err(ConfigError::MissingFile(f)) => assert_eq!(f, "/opt/tool-linux"),
        other => panic!("expected a missing-file error, got {:?}", other.is_ok()),
    }
}

#[test]
fn ssh_missing_key_file_fails() {
    let mut p = all_present();
    p.key_file_exists = false;
    match ssh("", "/home/user/.ssh/id").check_config(&p) {
        Err(ConfigError::MissingFile(f)) => {
            assert_eq!(f, "/home/user/.ssh/id");
            let e = ConfigError::MissingFile(f);
            assert_eq!(e.message(), "Error: \"/home/user/.ssh/id\" does not exist!");
        }
        other => panic!("expected a missing-file error, got {:?}", other.is_ok()),
    }
}

#[test]
fn ssh_blank_credentials_fail() {
    match ssh("", "").check_config(&all_present()) {
        Err(ConfigError::NoAuthConfigured) => {
            assert_eq!(
                ConfigError::NoAuthConfigured.message(),
                "Error: [ssh] block MUST specify either a key_file or a password, cannot leave both blank"
            );
        }
        other => panic!("expected a no-auth error, got {:?}", other.is_ok()),
    }
}

#[test]
fn ssh_password_only_passes() {
    assert!(ssh("SECRET-REDACTED", "").check_config(&all_present()).is_ok());
}

#[test]
fn ssh_key_file_only_passes() {
    assert!(ssh("", "/home/user/.ssh/id").check_config(&all_present()).is_ok());
}

#[test]
fn render_root_only_tree() {
    let mut e = ScanEntity::this_machine("ACME Board 1.0".to_string());
    e.report_line("10.0.0.0/24 with 254 hosts, 0 are online: {}".to_string());
    e.report_line("192.168.1.8/30 with 2 hosts, 0 are online: {}".to_string());
    let lines = e.render(">");
    assert_eq!(lines.len(), 1 + 2);
    assert_eq!(lines[0], "> ThisMachine ACME Board 1.0");
    assert_eq!(lines[1], ">  10.0.0.0/24 with 254 hosts, 0 are online: {}");
    assert_eq!(lines[2], ">  192.168.1.8/30 with 2 hosts, 0 are online: {}");
}

#[test]
fn render_empty_root() {
    let e = ScanEntity::this_machine("".to_string());
    let lines = e.render(">");
    assert_eq!(lines.len(), 1);
    assert_eq!(lines[0], "> ThisMachine ");
}

#[test]
fn render_recurses_into_neighbors() {
    let mut child = ScanEntity {
        neighbors: Vec::new(),
        discovery_technique: DiscoveryTechnique::ICMP_Ping,
        hardware_description: "peer".to_string(),
        report_lines: Vec::new(),
    };
    child.report_line("child line".to_string());
    let mut root = ScanEntity::this_machine("hw".to_string());
    root.report_line("root line".to_string());
    root.neighbors.push(child);
    let lines = root.render(">");
    assert_eq!(
        lines,
        vec![
            "> ThisMachine hw".to_string(),
            ">  root line".to_string(),
            ">> ICMP_Ping peer".to_string(),
            ">>  child line".to_string(),
        ]
    );
}

#[test]
fn maybe_log_respects_verbosity() {
    let args = Args {
        config_folder: "conf".to_string(),
        report_file: None,
        template_config: false,
        verbosity: 2,
    };
    let mut hits = 0;
    args.maybe_log(1, || hits += 1);
    assert_eq!(hits, 1);
    let mut silent = 0;
    args.maybe_log(3, || silent += 1);
    assert_eq!(silent, 0);
    assert!(args.should_log(2));
    assert!(!args.should_log(3));
}

#[test]
fn record_sweep_appends_report_line() {
    let s = Ipv4Subnet { addr: u32::from_be_bytes([192, 168, 1, 10]), prefix_len: 30 };
    let mut e = ScanEntity::this_machine("hw".to_string());
    let icmp = vec![ProbeResult {
        addr: u32::from_be_bytes([192, 168, 1, 9]),
        port: None,
        success: true,
    }];
    let tcp = vec![ProbeResult {
        addr: u32::from_be_bytes([192, 168, 1, 9]),
        port: Some(22),
        success: true,
    }];
    let agg = e.record_sweep(&s, &icmp, &tcp);
    assert_eq!(agg.online, vec![u32::from_be_bytes([192, 168, 1, 9])]);
    let lines = e.render(">");
    assert_eq!(lines.len(), 2);
    assert_eq!(lines[1], ">  192.168.1.10/30 with 2 hosts, 1 are online: {192.168.1.9}");
}
