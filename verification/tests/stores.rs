use roust::app_binds::{AppBind, AppBindError, AppBindStore};
use roust::dns_exceptions::{clear_failure_is_error, DnsException, DnsExceptionError, DnsExceptionStore};
use roust::host_overrides::{
    default_hosts_path, map_hosts_io_error, rewrite_hosts_content, validate_hostname, HostOverride,
    HostOverrideError, HostOverrideStore, HostsIoError, HOSTS_BEGIN, HOSTS_END,
};

fn sample_bind() -> AppBind {
    AppBind {
        exe_path: Some(r"C:\Program Files\AppExample\AppExample.exe".into()),
        image_name: Some("AppExample.exe".into()),
        nic: "Realtek".into(),
    }
}

fn sample_exception() -> DnsException {
    DnsException {
        namespace: "example.com".into(),
        dns_server: "8.8.8.8".into(),
    }
}

fn sample_override() -> HostOverride {
    HostOverride {
        hostname: "example.com".into(),
        ip: "203.0.113.10".into(),
    }
}

#[test]
fn test_reject_empty_nic() {
    let mut bind = sample_bind();
    bind.nic = "  ".into();
    assert!(bind.validate().is_err());
}

#[test]
fn app_binds_test_add_replace_remove() {
    let mut store = AppBindStore::new();
    store.add(sample_bind()).unwrap();
    assert_eq!(store.binds.len(), 1);

    let mut updated = sample_bind();
    updated.nic = "Wi-Fi".into();
    store.replace_at(0, updated).unwrap();
    assert_eq!(store.binds[0].nic, "Wi-Fi");

    assert!(store.remove_at(0));
    assert!(store.binds.is_empty());
    assert!(!store.remove_at(0));
}

#[test]
fn app_binds_test_path_beside_routes() {
    let routes = r"C:\ProgramData\roust\routes.json";
    assert_eq!(
        AppBindStore::path_beside(routes),
        r"C:\ProgramData\roust\app-binds.json"
    );
}

#[test]
fn test_image_name_only_ok() {
    let bind = AppBind {
        exe_path: None,
        image_name: Some("chrome.exe".into()),
        nic: "Ethernet".into(),
    };
    bind.validate().unwrap();
    assert_eq!(bind.identity_key(), "chrome.exe");
}

#[test]
fn test_reject_missing_identity() {
    let err = AppBindStore::from_binds(vec![AppBind { exe_path: None, image_name: None, nic: "Ethernet".into() }])
        .err()
        .unwrap();
    assert!(err.to_string().contains("exe-path"));
}

#[test]
fn test_reject_duplicate_path() {
    let err = AppBindStore::from_binds(vec![
        AppBind { exe_path: Some(r"C:\a.exe".into()), image_name: None, nic: "Eth1".into() },
        AppBind { exe_path: Some("c:/a.exe".into()), image_name: None, nic: "Eth2".into() },
    ])
    .err()
    .unwrap();
    assert!(err.to_string().contains("duplicate"));
}

#[test]
fn test_reject_duplicate_image_name() {
    let err = AppBindStore::from_binds(vec![
        AppBind { exe_path: None, image_name: Some("App.exe".into()), nic: "Eth1".into() },
        AppBind { exe_path: None, image_name: Some("app.EXE".into()), nic: "Eth2".into() },
    ])
    .err()
    .unwrap();
    assert!(err.to_string().contains("duplicate"));
}

#[test]
fn app_binds_add_normalizes_and_refuses_duplicates() {
    let mut store = AppBindStore::new();
    store
        .add(AppBind { exe_path: Some("  C:/Apps/A.exe ".into()), image_name: Some("  ".into()), nic: " Eth ".into() })
        .unwrap();
    assert_eq!(store.binds[0].exe_path, Some("C:/Apps/A.exe".to_string()));
    assert_eq!(store.binds[0].image_name, None);
    assert_eq!(store.binds[0].nic, "Eth");
    let err = store
        .add(AppBind { exe_path: Some(r"c:\apps\a.EXE".into()), image_name: None, nic: "Wi-Fi".into() })
        .unwrap_err();
    assert_eq!(err, AppBindError::DuplicateIdentity(r"c:\apps\a.exe".to_string()));
    assert_eq!(store.replace_at(3, sample_bind()).unwrap_err().to_string(), "app bind index 3 not found");
    assert_eq!(store.binds[0].label(), "C:/Apps/A.exe → Eth");
}

#[test]
fn test_reject_bad_dns_server() {
    let mut ex = sample_exception();
    ex.dns_server = "not-an-ip".into();
    assert!(ex.validate().is_err());
}

#[test]
fn test_reject_duplicate_namespace() {
    let err = DnsExceptionStore::from_exceptions(vec![
        DnsException { namespace: "example.com".into(), dns_server: "8.8.8.8".into() },
        DnsException { namespace: ".Example.COM".into(), dns_server: "1.1.1.1".into() },
    ])
    .err()
    .unwrap();
    assert!(err.to_string().contains("duplicate"));
}

#[test]
fn test_nrpt_add_args() {
    let args = sample_exception().nrpt_add_args().unwrap();
    assert_eq!(
        args,
        vec![
            String::from("-Namespace"),
            String::from(".example.com"),
            String::from("-NameServers"),
            String::from("8.8.8.8"),
            String::from("-Comment"),
            String::from("Roust"),
        ]
    );
}

#[test]
fn dns_exceptions_test_path_beside_routes() {
    let routes = r"C:\ProgramData\roust\routes.json";
    assert_eq!(
        DnsExceptionStore::path_beside(routes),
        r"C:\ProgramData\roust\dns-exceptions.json"
    );
}

#[test]
fn dns_exceptions_test_add_replace_remove() {
    let mut store = DnsExceptionStore::new();
    store.add(sample_exception()).unwrap();
    assert_eq!(store.exceptions.len(), 1);

    let mut updated = sample_exception();
    updated.dns_server = "1.1.1.1".into();
    store.replace_at(0, updated).unwrap();
    assert_eq!(store.exceptions[0].dns_server, "1.1.1.1");

    assert!(store.remove_at(0));
    assert!(store.exceptions.is_empty());
}

#[test]
fn dns_namespace_errors_and_command() {
    let ns = |s: &str| DnsException { namespace: s.into(), dns_server: "1.1.1.1".into() }.validate();
    assert_eq!(ns("  ").unwrap_err(), DnsExceptionError::EmptyNamespace);
    assert_eq!(
        ns("https://x.com").unwrap_err().to_string(),
        "namespace \"https://x.com\" must not include a URL scheme or path"
    );
    assert_eq!(ns("x.com:53").unwrap_err().to_string(), "namespace \"x.com:53\" must not include a port");
    assert_eq!(ns("*.x.com").unwrap_err().to_string(), "namespace \"*.x.com\" must not include wildcards");
    assert_eq!(ns("...").unwrap_err().to_string(), "namespace \"...\" is malformed");
    assert_eq!(ns("a_b.com").unwrap_err().to_string(), "namespace \"a_b.com\" contains invalid characters");
    assert!(ns(".corp.local").is_ok());
    let e = DnsException { namespace: ".it's.x".into(), dns_server: "1.1.1.1".into() };
    assert!(e.nrpt_add_command().is_err());
    let e = DnsException { namespace: " .corp ".into(), dns_server: " 10.0.0.53 ".into() };
    assert_eq!(
        e.nrpt_add_command().unwrap(),
        "Add-DnsClientNrptRule -Namespace '.corp' -NameServers '10.0.0.53' -Comment 'Roust'"
    );
    assert_eq!(e.identity_key(), "corp");
    assert!(!clear_failure_is_error("   "));
    assert!(!clear_failure_is_error("Get-DnsClientNrptRule : ObjectNotFound"));
    assert!(clear_failure_is_error("Access denied"));
}

#[test]
fn test_reject_loopback_ip() {
    let mut o = sample_override();
    o.ip = "127.0.0.1".into();
    assert!(o.validate().is_err());
}

#[test]
fn test_reject_duplicate_hostname() {
    let err = HostOverrideStore::from_overrides(vec![
        HostOverride { hostname: "example.com".into(), ip: "1.2.3.4".into() },
        HostOverride { hostname: "Example.COM.".into(), ip: "5.6.7.8".into() },
    ])
    .err()
    .unwrap();
    assert!(err.to_string().contains("duplicate"));
}

#[test]
fn host_overrides_test_path_beside_routes() {
    let routes = r"C:\ProgramData\roust\routes.json";
    assert_eq!(
        HostOverrideStore::path_beside(routes),
        r"C:\ProgramData\roust\host-overrides.json"
    );
}

#[test]
fn host_overrides_test_add_replace_remove() {
    let mut store = HostOverrideStore::new();
    store.add(sample_override()).unwrap();
    assert_eq!(store.overrides.len(), 1);

    let mut updated = sample_override();
    updated.ip = "198.51.100.1".into();
    store.replace_at(0, updated).unwrap();
    assert_eq!(store.overrides[0].ip, "198.51.100.1");

    assert!(store.remove_at(0));
    assert!(store.overrides.is_empty());
}

#[test]
fn test_rewrite_hosts_round_trip() {
    let base = "127.0.0.1 localhost\n::1 localhost\n";
    let with_block = rewrite_hosts_content(base, &[sample_override()]).unwrap();
    assert!(with_block.contains(HOSTS_BEGIN));
    assert!(with_block.contains("203.0.113.10 example.com"));
    assert!(with_block.contains(HOSTS_END));
    assert!(with_block.contains("127.0.0.1 localhost"));

    let updated = HostOverride {
        hostname: "example.com".into(),
        ip: "198.51.100.9".into(),
    };
    let replaced = rewrite_hosts_content(&with_block, &[updated]).unwrap();
    assert!(replaced.contains("198.51.100.9 example.com"));
    assert!(!replaced.contains("203.0.113.10"));
    assert_eq!(replaced.matches(HOSTS_BEGIN).count(), 1);

    let cleared = rewrite_hosts_content(&replaced, &[]).unwrap();
    assert!(!cleared.contains(HOSTS_BEGIN));
    assert!(!cleared.contains(HOSTS_END));
    assert!(cleared.contains("127.0.0.1 localhost"));
}

#[test]
fn test_hosts_write_permission_message() {
    let path = r"C:\Windows\System32\drivers\etc\hosts";
    let err = HostsIoError { permission_denied: true, message: "Access is denied.".to_string() };
    let msg = map_hosts_io_error(path, &err, "write", false);
    assert!(msg.contains("failed to write hosts file"));
    assert!(msg.contains("Access is denied"));
    assert!(
        msg.contains("security product") || msg.contains("Kaspersky"),
        "expected lock hint, got: {msg}"
    );
}

#[test]
fn hosts_rewrite_exact_text() {
    let out = rewrite_hosts_content("a\r\nb", &[sample_override()]).unwrap();
    assert_eq!(out, "a\nb\n\n# ROUST-HOST-BEGIN\n203.0.113.10 example.com\n# ROUST-HOST-END\n");
    let again = rewrite_hosts_content(&out, &[sample_override()]).unwrap();
    assert_eq!(again, out);
    let cleared = rewrite_hosts_content(&out, &[]).unwrap();
    assert_eq!(cleared, "a\nb\n");
    assert_eq!(rewrite_hosts_content("", &[]).unwrap(), "");
    let bad = HostOverride { hostname: "-bad.com".into(), ip: "1.2.3.4".into() };
    assert_eq!(
        rewrite_hosts_content("x", &[bad]).unwrap_err(),
        HostOverrideError::HostnameMalformed("-bad.com".to_string())
    );
}

#[test]
fn hosts_hostname_rules() {
    assert_eq!(validate_hostname(" Example.COM. ").unwrap(), "example.com");
    assert_eq!(validate_hostname(" . ").unwrap_err(), HostOverrideError::EmptyHostname);
    assert!(validate_hostname("a..b").is_err());
    assert!(validate_hostname("a b").is_err());
    let mut o = sample_override();
    o.ip = "224.0.0.1".into();
    assert_eq!(
        o.validate().unwrap_err().to_string(),
        "ip \"224.0.0.1\" must be a unicast non-loopback IPv4 address"
    );
    assert_eq!(sample_override().hosts_line().unwrap(), "203.0.113.10 example.com");
    assert_eq!(default_hosts_path(), r"C:\Windows\System32\drivers\etc\hosts");
    let plain = HostsIoError { permission_denied: false, message: "gone".to_string() };
    assert_eq!(map_hosts_io_error("h", &plain, "read", true), "failed to read hosts file h: gone");
}

#[test]
fn clearing_after_writing_restores_the_hosts_text() {
    for base in ["127.0.0.1 localhost\n::1 localhost\n", "\n", "10.0.0.1 a\n\n10.0.0.2 b\n"] {
        let written = rewrite_hosts_content(base, &[sample_override()]).unwrap();
        assert_ne!(written, base);
        assert_eq!(rewrite_hosts_content(&written, &[]).unwrap(), base);
        let unchanged = rewrite_hosts_content(base, &[]).unwrap();
        assert_eq!(rewrite_hosts_content(&unchanged, &[]).unwrap(), base);
    }
}
