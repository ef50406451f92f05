use hostfacts::kernel::build_kernel_facts;
use hostfacts::kernel::join_path;
use hostfacts::kernel::parse_majorversion;
use hostfacts::kernel::parse_version;
use hostfacts::kernel::KernelComponent;

#[test]
fn test_parse_version() {
    assert_eq!(parse_version("5.15.0-48-generic"), "5.15.0");
    assert_eq!(parse_version("5.15.0-48"), "5.15.0");
    assert_eq!(parse_version("5.15.0"), "5.15.0");
    assert_eq!(parse_version("5.15"), "5.15");
    assert_eq!(parse_version("5"), "5");
}

#[test]
fn test_parse_majorversion() {
    assert_eq!(parse_majorversion("5.15.0-48-generic"), "5.15");
    assert_eq!(parse_majorversion("5.15.0-48"), "5.15");
    assert_eq!(parse_majorversion("5.15.0"), "5.15");
    assert_eq!(parse_majorversion("5.15"), "5.15");
    assert_eq!(parse_majorversion("5"), "5");
}

#[test]
fn test_parse_version_empty() {
    assert_eq!(parse_version(""), "");
    assert_eq!(parse_version("-generic"), "");
    assert_eq!(parse_majorversion(""), "");
}

#[test]
fn test_build_kernel_facts_common() {
    let facts = build_kernel_facts(
        "Linux".to_string(),
        "x86_64".to_string(),
        "5.15.0-48-generic".to_string(),
    );
    assert_eq!(facts.ostype, "Linux");
    assert_eq!(facts.arch, "x86_64");
    assert_eq!(facts.release, "5.15.0-48-generic");
    assert_eq!(facts.version, "5.15.0");
    assert_eq!(facts.majorversion, "5.15");
}

#[test]
fn test_build_kernel_facts_weird() {
    let facts = build_kernel_facts(
        "Linux".to_string(),
        "x86_64".to_string(),
        "5.15.0-48".to_string(),
    );
    assert_eq!(facts.release, "5.15.0-48");
    assert_eq!(facts.version, "5.15.0");
    assert_eq!(facts.majorversion, "5.15");
}

#[test]
fn test_kernel_component_paths() {
    let c = KernelComponent::new();
    assert_eq!(c.name(), "kernel");
    assert_eq!(c.ostype_path(), "/proc/sys/kernel/ostype");
    assert_eq!(c.arch_path(), "/proc/sys/kernel/arch");
    assert_eq!(c.release_path(), "/proc/sys/kernel/osrelease");

    let staged = KernelComponent::with_root("/tmp/staging".to_string());
    assert_eq!(staged.release_path(), "/tmp/staging/proc/sys/kernel/osrelease");
}

#[test]
fn test_join_path() {
    assert_eq!(join_path("/", "proc/meminfo"), "/proc/meminfo");
    assert_eq!(join_path("/srv", "proc/meminfo"), "/srv/proc/meminfo");
    assert_eq!(join_path("/srv/", "proc/meminfo"), "/srv/proc/meminfo");
    assert_eq!(join_path("", "proc/meminfo"), "/proc/meminfo");
}
