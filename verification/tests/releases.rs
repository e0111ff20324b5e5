use adb_input::json::{Scalar, Table};
use adb_input::release::{
    archive_name, bundled_linker, host_triple, linker_key, linker_variable, named_directory, plan,
    release_arch, target_directory, PlanError,
};

const INFO: &str = "rustc 1.80.0\nbinary: rustc\nhost: x86_64-unknown-linux-gnu\nrelease: 1.80.0";

fn args(list: &[&str]) -> Vec<String> {
    list.iter().map(|arg| arg.to_string()).collect()
}

#[test]
fn a_build_is_for_the_host_or_a_target() {
    let host = plan(&args(&[]), INFO).unwrap();
    assert_eq!((host.target.as_str(), host.dist), ("x86_64-unknown-linux-gnu", false));
    let dist = plan(&args(&["dist", "--target", "aarch64-unknown-linux-musl"]), INFO).unwrap();
    assert_eq!((dist.target.as_str(), dist.dist), ("aarch64-unknown-linux-musl", true));
    assert_eq!(dist.host, "x86_64-unknown-linux-gnu");
}

#[test]
fn bad_arguments_are_refused() {
    assert_eq!(plan(&args(&["test"]), INFO), Err(PlanError::Usage));
    assert_eq!(plan(&args(&["build", "--release"]), INFO), Err(PlanError::Usage));
    assert_eq!(plan(&args(&["build", "--target"]), INFO), Err(PlanError::NoTarget));
    assert_eq!(plan(&args(&["build", "--target", "a", "b"]), INFO), Err(PlanError::Unexpected));
    assert_eq!(plan(&args(&["build"]), "rustc"), Err(PlanError::NoHost));
    assert_eq!(PlanError::NoTarget.message(), "missing --target value");
}

#[test]
fn the_host_is_read_from_the_compiler() {
    assert_eq!(host_triple("host: a\r\nhost: b\n"), Some("a".into()));
    assert_eq!(host_triple("guest: a"), None);
}

#[test]
fn linkers_are_named_by_target() {
    assert_eq!(
        linker_key("x86_64-unknown-linux-musl"),
        "CARGO_TARGET_X86_64_UNKNOWN_LINUX_MUSL_LINKER"
    );
    assert_eq!(linker_variable("ABC"), "CARGO_TARGET_ABC_LINKER");
    assert!(bundled_linker("x86_64-unknown-linux-musl"));
    assert!(!bundled_linker("x86_64-unknown-linux-gnu"));
    assert!(!bundled_linker("musl"));
}

#[test]
fn archives_are_for_linux_on_two_machines() {
    assert_eq!(release_arch("aarch64-unknown-linux-musl"), Ok("aarch64".into()));
    assert_eq!(release_arch("x86_64-apple-darwin"), Err(PlanError::NotLinux));
    assert_eq!(
        release_arch("riscv64-unknown-linux-gnu").unwrap_err().message(),
        "unsupported release architecture: riscv64"
    );
    assert_eq!(archive_name("x86_64"), "adb-input-linux-x86_64.tar.gz");
}

#[test]
fn the_target_directory_is_read_from_the_metadata() {
    let metadata = r#"{"packages":[{"name":"a"}],"target_directory":"/work/target","version":1}"#;
    assert_eq!(target_directory(metadata), Ok(Some("/work/target".to_string())));
    assert_eq!(target_directory(r#"{"packages":[]}"#), Ok(None));
    assert_eq!(target_directory(r#"{"target_directory":7}"#), Ok(None));
    assert_eq!(target_directory("[]"), Ok(None));
    assert!(target_directory("{").is_err());
}

#[test]
fn only_text_names_a_directory() {
    let named = Table { head: Scalar::Text("out".to_string()), rows: None };
    assert_eq!(named_directory(named), Some("out".to_string()));
    let other = Table { head: Scalar::Number(7), rows: None };
    assert_eq!(named_directory(other), None);
}
