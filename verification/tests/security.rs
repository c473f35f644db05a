use cold_tools::security::{
    detect_dangerous_command, has_traversal, is_device_path, is_sensitive_path, DangerLevel,
};

#[test]
fn test_has_traversal() {
    assert!(has_traversal("../etc/passwd"));
    assert!(has_traversal("~/secrets"));
    assert!(!has_traversal("src/main.rs"));
}

#[test]
fn test_is_device_path() {
    assert!(is_device_path("/dev/zero"));
    assert!(is_device_path("/proc/self/mem"));
    assert!(!is_device_path("/home/user/file.txt"));
}

#[test]
fn test_is_sensitive_path() {
    assert!(is_sensitive_path("/home/user/.ssh/id_rsa"));
    assert!(is_sensitive_path("/home/user/.aws/credentials"));
    assert!(!is_sensitive_path("/home/user/code/main.rs"));
}

#[test]
fn test_dangerous_commands() {
    assert!(matches!(detect_dangerous_command("rm -rf /"), Some(DangerLevel::Critical(_))));
    assert!(matches!(
        detect_dangerous_command("dd if=/dev/zero of=/dev/sda"),
        Some(DangerLevel::Critical(_))
    ));
    assert!(matches!(
        detect_dangerous_command("git push -f origin main"),
        Some(DangerLevel::Warning(_))
    ));
    assert!(matches!(detect_dangerous_command("chmod 777 /tmp/file"), Some(DangerLevel::Warning(_))));
    assert!(detect_dangerous_command("ls -la").is_none());
}
