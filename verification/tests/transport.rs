use lamco_rdp_server::transport::proxy_auth::{
    AllowAllInsecure, DenyAll, ProxyAuthValidator, SharedSecretValidator,
};
use lamco_rdp_server::transport::socket_activation::{
    ActivatedFd, ActivatedFds, ActivationError, LocalAddress,
};

const SECRET: &[u8] = b"correct-horse-battery-staple";

#[test]
fn deny_all_rejects_everything() {
    let v = DenyAll;
    assert!(v.validate(b"", "vm-128").is_err());
    assert!(v.validate(SECRET, "vm-128").is_err());
}

#[test]
fn shared_secret_accepts_exact_match() {
    let v = SharedSecretValidator::new(SECRET.to_vec()).unwrap();
    assert!(v.validate(SECRET, "vm-128").is_ok());
}

#[test]
fn shared_secret_rejects_mismatch_and_empty() {
    let v = SharedSecretValidator::new(SECRET.to_vec()).unwrap();
    assert!(v.validate(b"wrong", "vm-128").is_err());
    assert!(v.validate(b"", "vm-128").is_err());
    // A prefix of the secret must not be accepted.
    assert!(v.validate(b"correct-horse", "vm-128").is_err());
}

#[test]
fn empty_secret_is_rejected_at_construction() {
    assert!(SharedSecretValidator::new(Vec::new()).is_none());
}

#[test]
fn allow_all_insecure_accepts_everything() {
    let v = AllowAllInsecure;
    assert!(v.validate(b"", "vm-128").is_ok());
    assert!(v.validate(b"anything", "vm-128").is_ok());
}

#[test]
fn rejections_say_why() {
    let rejected = DenyAll.validate(b"x", "vm").unwrap_err();
    assert_eq!(rejected.reason(), "no proxy_auth validator configured");
    assert_eq!(
        rejected.message(),
        "proxy_auth rejected: no proxy_auth validator configured"
    );
    let v = SharedSecretValidator::new(SECRET.to_vec()).unwrap();
    let rejected = v.validate(b"correct-horse-battery-stapl!", "vm").unwrap_err();
    assert_eq!(rejected.reason(), "shared secret mismatch");
}

#[test]
fn from_env_returns_empty_when_listen_fds_unset() {
    let fds = ActivatedFds::from_values(None, None, None, 4242).unwrap();
    assert!(fds.is_empty());
    assert_eq!(fds.len(), 0);
}

#[test]
fn from_env_returns_empty_when_listen_fds_zero() {
    let fds = ActivatedFds::from_values(Some("0"), None, None, 4242).unwrap();
    assert!(fds.is_empty());
}

#[test]
fn from_env_rejects_non_numeric_listen_fds() {
    let err = ActivatedFds::from_values(Some("abc"), None, None, 4242).unwrap_err();
    match err {
        ActivationError::Parse { .. } => {}
        other => panic!("expected Parse, got {other:?}"),
    }
}

#[test]
fn from_env_rejects_length_mismatch() {
    let err = ActivatedFds::from_values(Some("2"), Some("tcp"), Some("4242"), 4242).unwrap_err();
    match err {
        ActivationError::LengthMismatch { fds: 2, names: 1 } => {}
        other => panic!("expected LengthMismatch{{2,1}}, got {other:?}"),
    }
}

#[test]
fn from_env_rejects_duplicate_names() {
    let err =
        ActivatedFds::from_values(Some("2"), Some("tcp:tcp"), Some("4242"), 4242).unwrap_err();
    match err {
        ActivationError::DuplicateName(name) if name == "tcp" => {}
        other => panic!("expected DuplicateName(\"tcp\"), got {other:?}"),
    }
}

#[test]
fn from_env_rejects_pid_mismatch() {
    let err = ActivatedFds::from_values(Some("1"), Some("tcp"), Some("1"), 4242).unwrap_err();
    match err {
        ActivationError::PidMismatch { listen_pid: 1, .. } => {}
        other => panic!("expected PidMismatch{{1}}, got {other:?}"),
    }
}

#[test]
fn zero_descriptors_need_no_matching_process() {
    let fds = ActivatedFds::from_values(Some("0"), Some("nothing"), Some("12345"), 4242).unwrap();
    assert!(fds.is_empty());
}

#[test]
fn malformed_numbers_are_named_with_their_reason() {
    let parse = |fds: &str, pid: Option<&str>| {
        ActivatedFds::from_values(Some(fds), None, pid, 4242).unwrap_err()
    };
    assert_eq!(
        parse("bogus", None),
        ActivationError::Parse {
            raw: "bogus".to_string(),
            reason: "not a non-negative integer: invalid digit found in string".to_string(),
        }
    );
    assert_eq!(
        parse("", None),
        ActivationError::Parse {
            raw: String::new(),
            reason: "not a non-negative integer: cannot parse integer from empty string"
                .to_string(),
        }
    );
    assert_eq!(
        parse("99999999999999999999999", None),
        ActivationError::Parse {
            raw: "99999999999999999999999".to_string(),
            reason: "not a non-negative integer: number too large to fit in target type"
                .to_string(),
        }
    );
    assert_eq!(
        parse("1", Some("-99999999999")),
        ActivationError::Parse {
            raw: "-99999999999".to_string(),
            reason: "LISTEN_PID not an integer: number too small to fit in target type"
                .to_string(),
        }
    );
}

#[test]
fn descriptors_are_numbered_from_three() {
    let mut fds =
        ActivatedFds::from_values(Some("+3"), Some("tcp:unix:vsock"), Some("4242"), 4242).unwrap();
    assert_eq!(fds.len(), 3);
    assert_eq!(fds.remaining_names(), vec!["tcp", "unix", "vsock"]);
    assert_eq!(fds.take("unix"), Some(4));
    // What is taken cannot be taken again.
    assert_eq!(fds.take("unix"), None);
    assert_eq!(fds.remaining_names(), vec!["tcp", "vsock"]);
    assert_eq!(fds.take_first_unknown(), None);
    assert_eq!(fds.take_first(), Some(3));
    assert_eq!(fds.take_first(), Some(5));
    assert_eq!(fds.take_first(), None);
    assert!(fds.is_empty());
}

#[test]
fn unnamed_descriptors_get_positional_names() {
    let mut fds = ActivatedFds::from_values(Some("2"), None, None, 4242).unwrap();
    assert_eq!(fds.remaining_names(), vec!["unknown.0", "unknown.1"]);
    assert!(fds.provides_tcp_listener());
    assert_eq!(fds.take_first_unknown(), Some(3));
    assert_eq!(fds.take_first_unknown(), Some(4));
    assert!(!fds.provides_tcp_listener());
}

#[test]
fn take_first_unknown_returns_none_when_empty() {
    let mut fds = ActivatedFds { fds: Vec::new() };
    assert!(fds.take_first_unknown().is_none());
    assert!(fds.take("tcp").is_none());
}

#[test]
fn unix_only_fd_provides_no_tcp_and_no_routable_inet() {
    let af = ActivatedFds {
        fds: vec![ActivatedFd { name: "unix".to_string(), raw_fd: 3 }],
    };
    assert!(!af.provides_tcp_listener());
    assert!(!af.has_routable_inet_listener(&[LocalAddress::NotInet]));
}

#[test]
fn routable_tcp_fd_is_flagged_routable() {
    let af = ActivatedFds {
        fds: vec![ActivatedFd { name: "tcp".to_string(), raw_fd: 3 }],
    };
    assert!(af.provides_tcp_listener());
    assert!(af.has_routable_inet_listener(&[LocalAddress::Inet { loopback: false }]));
}

#[test]
fn loopback_tcp_fd_is_a_tcp_source_but_not_routable() {
    let af = ActivatedFds {
        fds: vec![ActivatedFd { name: "tcp".to_string(), raw_fd: 3 }],
    };
    assert!(af.provides_tcp_listener());
    assert!(!af.has_routable_inet_listener(&[LocalAddress::Inet { loopback: true }]));
}

#[test]
fn an_unreadable_address_counts_as_routable() {
    let af = ActivatedFds {
        fds: vec![ActivatedFd { name: "tcp".to_string(), raw_fd: 3 }],
    };
    assert!(af.has_routable_inet_listener(&[LocalAddress::Unreadable]));
}
