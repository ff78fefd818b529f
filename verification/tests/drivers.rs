use dylint::clippy_utils::{
    channel, clippy_utils_version_from_rust_version, parse_nightly, push_decimal,
    refuses_downgrade, version,
};
use dylint::driver::{
    cargo_toml, driver_dependency_spec, driver_is_outdated, escape_backslashes_of,
    rust_toolchain, DriverVersionError,
};
use dylint::error::ColorizedError;

#[test]
fn driver_manifest() {
    assert_eq!(
        cargo_toml("nightly-2024-01-01", "version = \"=4.0.0\""),
        "\n[package]\nname = \"dylint_driver-nightly-2024-01-01\"\nversion = \"0.1.0\"\nedition = \"2018\"\n\n[dependencies]\nanyhow = \"1.0\"\nenv_logger = \"0.11\"\ndylint_driver = { version = \"=4.0.0\" }\n"
    );
}

#[test]
fn driver_toolchain_file() {
    assert_eq!(
        rust_toolchain("nightly"),
        "\n[toolchain]\nchannel = \"nightly\"\ncomponents = [\"llvm-tools-preview\", \"rustc-dev\"]\n"
    );
}

#[test]
fn driver_dependency() {
    assert_eq!(driver_dependency_spec("4.1.0", None), "version = \"=4.1.0\"");
    assert_eq!(
        driver_dependency_spec("4.1.0", Some("C:\\src\\driver")),
        "version = \"=4.1.0\", path = \"C:\\\\src\\\\driver\""
    );
    assert_eq!(escape_backslashes_of("a\\b\\\\c"), "a\\\\b\\\\\\\\c");
}

#[test]
fn driver_versions() {
    assert_eq!(driver_is_outdated("dylint-driver 3.0.0\n", "4.0.0").unwrap(), true);
    assert_eq!(driver_is_outdated("dylint-driver 4.0.0", "4.0.0").unwrap(), false);
    assert_eq!(driver_is_outdated("a b 5.1.0 \n", "4.0.0").unwrap(), false);
    assert!(matches!(driver_is_outdated("dylint-driver\n", "4.0.0"), Err(DriverVersionError::NotReported)));
    assert!(matches!(
        driver_is_outdated("dylint-driver abc", "4.0.0"),
        Err(DriverVersionError::Unparsable(ref v)) if v == "abc"
    ));
    assert!(matches!(
        driver_is_outdated("dylint-driver 1.0.0", "four"),
        Err(DriverVersionError::OwnUnparsable)
    ));
}

#[test]
fn clippy_utils_versions() {
    assert_eq!(clippy_utils_version_from_rust_version("1.65.0").unwrap(), "0.1.65");
    assert_eq!(clippy_utils_version_from_rust_version("rust-1.70.2").unwrap(), "0.1.70");
    assert_eq!(clippy_utils_version_from_rust_version("12.345.6").unwrap(), "0.12.345");
    assert!(clippy_utils_version_from_rust_version("1.65").is_err());
    assert!(clippy_utils_version_from_rust_version("rust-").is_err());
}

#[test]
fn decimal_numbers() {
    let mut s = "n=".to_owned();
    push_decimal(&mut s, 0);
    push_decimal(&mut s, 1_234_567_890);
    assert_eq!(s, "n=01234567890");
    let mut s = String::new();
    push_decimal(&mut s, u64::MAX);
    assert_eq!(s, u64::MAX.to_string());
}

#[test]
fn clippy_utils_manifest_version() {
    assert_eq!(
        version("[package]\nname = \"clippy_utils\"\nversion = \"0.1.65\"\n").unwrap(),
        "0.1.65"
    );
    assert!(version("[package]\nname = \"x\"\n").is_err());
    assert!(version("[package\n").is_err());
    assert!(version("[package]\nversion = 3\n").is_err());
}

#[test]
fn toolchain_channels() {
    assert_eq!(
        channel("[toolchain]\nchannel = \"nightly-2022-08-11\"\ncomponents = [\"llvm-tools-preview\"]\n").unwrap(),
        "nightly-2022-08-11"
    );
    assert_eq!(
        channel("[toolchain]\r\nchannel = \"nightly\"\r\n").unwrap(),
        "nightly"
    );
    assert!(channel("[toolchain]\n channel = \"nightly\"\n").is_err());
    assert!(channel("channel = \"nightly\n").is_err());
    assert!(channel("").is_err());
    assert_eq!(
        channel("channel = \"first\"\nchannel = \"second\"").unwrap(),
        "first"
    );
}

#[test]
fn colorized_error_keeps_its_error() {
    let e = ColorizedError::new("boom".to_owned());
    assert_eq!(e.error(), "boom");
}

#[test]
fn nightly_dates() {
    assert_eq!(parse_nightly("nightly-2022-08-11"), Some((2022, 8, 11)));
    assert_eq!(parse_nightly("stable"), None);
    assert_eq!(parse_nightly("nightly-2022-08"), None);
    assert_eq!(parse_nightly("nightly-2022-0x-11"), None);
    assert_eq!(parse_nightly("nightly-99999999999-01-01"), None);
}

#[test]
fn downgrades_are_refused_unless_allowed() {
    assert!(refuses_downgrade(false, "nightly-2022-06-30", "nightly-2022-08-11"));
    assert!(!refuses_downgrade(true, "nightly-2022-06-30", "nightly-2022-08-11"));
    assert!(!refuses_downgrade(false, "nightly-2022-08-11", "nightly-2022-06-30"));
    assert!(!refuses_downgrade(false, "nightly-2022-08-11", "nightly-2022-08-11"));
    assert!(!refuses_downgrade(false, "stable", "nightly-2022-08-11"));
}
