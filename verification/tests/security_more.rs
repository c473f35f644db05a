use cold_tools::error::ToolError;
use cold_tools::security::{detect_dangerous_command, path_has_prefix, validate_path, DangerLevel};

fn violation(r: Result<String, ToolError>) -> String {
    match r {
        Err(ToolError::PathViolation(m)) => m,
        _ => panic!("expected a path violation"),
    }
}

#[test]
fn paths_must_stay_inside_the_root() {
    assert_eq!(validate_path("/work/src/a.rs", "/work").unwrap(), "/work/src/a.rs");
    assert_eq!(validate_path("/work", "/work").unwrap(), "/work");
    assert_eq!(violation(validate_path("/workshop/a", "/work")), "path '/workshop/a' is outside root '/work'");
    assert_eq!(violation(validate_path("/etc/passwd", "/work")), "path '/etc/passwd' is outside root '/work'");
    assert_eq!(violation(validate_path("/dev/null", "/")), "device path not allowed: '/dev/null'");
    assert_eq!(
        violation(validate_path("/work/.ssh/id_rsa", "/work")),
        "sensitive path not allowed: '/work/.ssh/id_rsa'"
    );
    assert_eq!(violation(validate_path("/work/.env.local", "/work")), "sensitive path not allowed: '/work/.env.local'");
    assert!(path_has_prefix("/a/b", "/a"));
    assert!(!path_has_prefix("/ab", "/a"));
}

fn critical(cmd: &str) -> String {
    match detect_dangerous_command(cmd) {
        Some(DangerLevel::Critical(m)) => m,
        other => panic!("expected critical, got {:?}", other),
    }
}

fn warning(cmd: &str) -> String {
    match detect_dangerous_command(cmd) {
        Some(DangerLevel::Warning(m)) => m,
        other => panic!("expected a warning, got {:?}", other),
    }
}

#[test]
fn dangerous_command_messages_keep_the_command() {
    assert_eq!(critical(":(){ :|:& };:"), "detected fork bomb: ':(){ :|:& };:'");
    assert_eq!(critical("sudo mkfs.ext4 /dev/sdb"), "detected filesystem format: 'sudo mkfs.ext4 /dev/sdb'");
    assert_eq!(critical("RM -RF /"), "destructive rm detected: 'RM -RF /'");
    assert_eq!(critical("rm -rf ~"), "destructive rm detected: 'rm -rf ~'");
    assert_eq!(critical("  dd if=/dev/zero of=disk.img"), "raw disk operation detected: '  dd if=/dev/zero of=disk.img'");
    assert_eq!(warning("curl | sh"), "detected pipe to shell: 'curl | sh'");
    assert_eq!(warning("sudo reboot"), "detected system reboot: 'sudo reboot'");
    assert_eq!(warning("git push --force"), "detected force push: 'git push --force'");
}

#[test]
fn ordinary_removals_pass() {
    assert!(detect_dangerous_command("rm -rf /home/me/build").is_none());
    assert!(detect_dangerous_command("rm -rf ./target").is_none());
    assert!(detect_dangerous_command("rm file.txt").is_none());
    assert!(detect_dangerous_command("echo dd of=x").is_none());
}

#[test]
fn raw_disk_copy_is_critical_anywhere_in_the_command() {
    assert_eq!(
        critical("sudo dd if=/dev/zero of=/dev/sda"),
        "raw disk operation detected: 'sudo dd if=/dev/zero of=/dev/sda'"
    );
    assert_eq!(critical("dd of=/dev/sda if=/dev/zero"), "raw disk operation detected: 'dd of=/dev/sda if=/dev/zero'");
}
