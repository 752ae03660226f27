use yarp::archive_runtime::{
    EntryFacts, LockOutcome, RuntimePaths, SOCKET_PATH_LIMIT, archive_id, check_broker_directory,
    check_broker_directory_owner, check_lock_link, check_runtime_base, no_live_broker,
    require_private_archive, require_private_directory, require_private_file,
};

fn directory(mode: u32) -> EntryFacts {
    EntryFacts {
        is_symlink: false,
        is_directory: true,
        is_regular: false,
        is_socket: false,
        mode,
        owner: 1_000,
    }
}

fn file(mode: u32) -> EntryFacts {
    EntryFacts {
        is_directory: false,
        is_regular: true,
        ..directory(mode)
    }
}

#[test]
fn runtime_identity_is_private_and_archive_specific() {
    let base = "/run/user/1000";
    check_runtime_base(base, &directory(0o700), 1_000).expect("private base");
    let first = RuntimePaths::resolve_in(
        b"/run/user/1000/yarp",
        "/run/user/1000/yarp",
        b"/run/user/1000/data/a.sqlite",
        1_000,
    )
    .expect("first runtime");
    let second = RuntimePaths::resolve_in(
        b"/run/user/1000/yarp",
        "/run/user/1000/yarp",
        b"/run/user/1000/data/b.sqlite",
        1_000,
    )
    .expect("second runtime");
    assert_ne!(first.archive_id, second.archive_id);
    assert_ne!(first.socket, second.socket);
    assert!(require_private_file("lock", &file(0o600), 1_000, false).is_ok());
    assert!(require_private_file("lock", &file(0o644), 1_000, false).is_err());
    assert!(no_live_broker(LockOutcome::Taken).expect("no broker"));
    assert!(!no_live_broker(LockOutcome::Held).expect("live broker"));
    assert!(no_live_broker(LockOutcome::Failed("denied".to_owned())).is_err());
}

#[test]
fn rejects_a_symlinked_startup_lock() {
    assert!(
        check_lock_link("startup", "/run/a.lock", true)
            .unwrap_err()
            .contains("symlink")
    );
    assert!(check_lock_link("startup", "/run/a.lock", false).is_ok());
}

#[test]
fn rejects_a_public_runtime_directory() {
    let error = check_runtime_base("/run/user/1000", &directory(0o755), 1_000)
        .expect_err("public runtime must fail");
    assert!(error.contains("other users"));
}

#[test]
fn runtime_directories_belong_to_the_user() {
    assert!(check_runtime_base("/run/user/1000", &directory(0o700), 1_001).is_err());
    assert!(check_broker_directory_owner("/run/yarp", &directory(0o700), 1_001).is_err());
    assert!(check_broker_directory_owner("/run/yarp", &directory(0o700), 1_000).is_ok());
    let link = EntryFacts {
        is_symlink: true,
        ..directory(0o700)
    };
    assert!(check_broker_directory("/run/yarp", &link).is_err());
    assert!(check_broker_directory("/run/yarp", &directory(0o700)).is_ok());
    assert!(check_broker_directory("/run/yarp", &file(0o700)).is_err());
    let socket = EntryFacts {
        is_regular: false,
        is_socket: true,
        ..file(0o600)
    };
    assert!(require_private_file("socket", &socket, 1_000, true).is_ok());
    assert!(require_private_file("socket", &socket, 1_000, false).is_err());
}

#[test]
fn archives_lie_in_private_places() {
    assert!(require_private_directory("/data", 0o700).is_ok());
    assert!(
        require_private_directory("/data", 0o777)
            .expect_err("public directory")
            .contains("use a private directory")
    );
    assert!(require_private_archive("/data/a.sqlite", &file(0o600)).is_ok());
    assert!(require_private_archive("/data/a.sqlite", &file(0o640)).is_err());
}

#[test]
fn socket_paths_fit_the_system_limit() {
    let deep = format!("/run/{}", "d".repeat(SOCKET_PATH_LIMIT));
    assert!(RuntimePaths::resolve_in(deep.as_bytes(), &deep, b"/a.sqlite", 1_000).is_err());
    let id = archive_id(b"/a.sqlite");
    assert!(id.chars().all(|character| character.is_ascii_hexdigit()));
}
