use aurora_release_repository::id::error::{IdError, VersionError};
use aurora_release_repository::id::{Checksum, Id, IdStatus, Status, Version};

const CHECKSUM: &str = "b94d27b9934d3e08a52e52d7da7dabfac484efe37a5380ee9088f7ace2efcde9";

#[test]
fn test_version() {
    let version_str = "v1.2.3".to_string();
    let version = Version::try_from(version_str).unwrap();
    let expected = Version {
        major: 1,
        minor: 2,
        patch: 3,
    };

    assert_eq!(version, expected);
}

#[test]
fn test_blank_version() {
    let version_str = String::new();
    assert!(matches!(
        Version::try_from(version_str),
        Err(VersionError::UnusualVersion)
    ));
}

#[test]
fn test_bad_version() {
    let version_str = "v1.0".to_string();
    assert!(matches!(
        Version::try_from(version_str),
        Err(VersionError::UnusualVersion)
    ));
}

#[test]
fn test_id() {
    let version = "v1.2.3".to_string();
    let checksum = CHECKSUM;
    let id_string = format!("{version}-{checksum}");
    Id::try_from(id_string).unwrap();
}

#[test]
fn test_bad_checksum_id() {
    let version = "v1.2.3".to_string();
    let checksum = "b94d27b9934d3e08a52e52d7da7dabfac484efe37a5380ee9088f7ace2";
    let id_string = format!("{version}-{checksum}");
    assert!(matches!(Id::try_from(id_string), Err(IdError::HashLen)));
}

#[test]
fn version_from_str_slice() {
    let version = Version::try_from("v10.0.4294967295").unwrap();
    assert_eq!(
        version,
        Version {
            major: 10,
            minor: 0,
            patch: 4_294_967_295,
        }
    );
}

#[test]
fn version_without_v_is_unusual() {
    assert!(matches!(
        Version::try_from("1.2.3"),
        Err(VersionError::UnusualVersion)
    ));
}

#[test]
fn version_with_four_pieces_is_unusual() {
    assert!(matches!(
        Version::try_from("v1.2.3.4"),
        Err(VersionError::UnusualVersion)
    ));
}

#[test]
fn version_trailing_dot_is_unusual() {
    assert!(matches!(
        Version::try_from("v1.2.3."),
        Err(VersionError::UnusualVersion)
    ));
}

#[test]
fn version_empty_last_piece_is_not_a_number() {
    assert!(matches!(
        Version::try_from("v1.2."),
        Err(VersionError::ParseInt(_))
    ));
}

#[test]
fn version_piece_not_a_number() {
    assert!(matches!(
        Version::try_from("v1.x.3"),
        Err(VersionError::ParseInt(_))
    ));
    assert!(matches!(
        Version::try_from("v1..3"),
        Err(VersionError::ParseInt(_))
    ));
    assert!(matches!(
        Version::try_from("v-1.2.3"),
        Err(VersionError::ParseInt(_))
    ));
}

#[test]
fn version_piece_overflows_u32() {
    assert!(matches!(
        Version::try_from("v4294967296.0.0"),
        Err(VersionError::ParseInt(_))
    ));
}

#[test]
fn version_piece_with_plus_sign() {
    assert_eq!(
        Version::try_from("v+1.02.3").unwrap(),
        Version {
            major: 1,
            minor: 2,
            patch: 3,
        }
    );
}

#[test]
fn version_to_string_is_canonical() {
    let v = Version {
        major: 0,
        minor: 120,
        patch: 4_294_967_295,
    };
    assert_eq!(v.to_string(), "v0.120.4294967295");
}

#[test]
fn version_round_trip() {
    for (major, minor, patch) in [(0, 0, 0), (1, 2, 3), (10, 99, 100), (u32::MAX, 7, 0)] {
        let v = Version {
            major,
            minor,
            patch,
        };
        assert_eq!(Version::try_from(v.to_string()).unwrap(), v);
    }
}

#[test]
fn checksum_to_string_is_lower_hex() {
    let c = Checksum(vec![0xde, 0xad, 0xbe, 0xef, 0x00, 0x0f]);
    assert_eq!(c.to_string(), "deadbeef000f");
}

#[test]
fn id_fields_and_text() {
    let id = Id::try_from(format!("v1.2.3-{CHECKSUM}")).unwrap();
    assert_eq!(
        id.version,
        Version {
            major: 1,
            minor: 2,
            patch: 3,
        }
    );
    assert_eq!(id.checksum.0.len(), 32);
    assert_eq!(id.checksum.0[0], 0xb9);
    assert_eq!(id.checksum.0[31], 0xe9);
    assert_eq!(id.to_string(), format!("v1.2.3-{CHECKSUM}"));
}

#[test]
fn id_upper_case_hex_is_accepted() {
    let upper = CHECKSUM.to_uppercase();
    let id = Id::try_from(format!("v1.2.3-{upper}")).unwrap();
    let lower = Id::try_from(format!("v1.2.3-{CHECKSUM}")).unwrap();
    assert_eq!(id, lower);
    assert_eq!(id.to_string(), format!("v1.2.3-{CHECKSUM}"));
}

#[test]
fn id_round_trip() {
    let id = Id::new(
        Version {
            major: 4,
            minor: 0,
            patch: 17,
        },
        Checksum((0u8..32).map(|b| b * 7).collect()),
    );
    let text = id.to_string();
    assert_eq!(Id::try_from(text.as_str()).unwrap(), id);
}

#[test]
fn id_without_dash_is_unusual() {
    assert!(matches!(
        Id::try_from(format!("v1.2.3{CHECKSUM}")),
        Err(IdError::UnusualId)
    ));
}

#[test]
fn id_with_two_dashes_is_unusual() {
    assert!(matches!(
        Id::try_from(format!("v1.2.3-{CHECKSUM}-x")),
        Err(IdError::UnusualId)
    ));
    assert!(matches!(Id::try_from(""), Err(IdError::UnusualId)));
}

#[test]
fn id_with_trailing_dash_is_unusual() {
    assert!(matches!(
        Id::try_from(format!("v1.2.3-{CHECKSUM}-")),
        Err(IdError::UnusualId)
    ));
}

#[test]
fn id_without_v_is_missing_prefix() {
    assert!(matches!(
        Id::try_from(format!("1.2.3-{CHECKSUM}")),
        Err(IdError::MissingVPrefix)
    ));
}

#[test]
fn id_with_two_version_pieces() {
    assert!(matches!(
        Id::try_from(format!("v1.2-{CHECKSUM}")),
        Err(IdError::Version(VersionError::UnusualVersion))
    ));
}

#[test]
fn id_with_bad_version_number() {
    assert!(matches!(
        Id::try_from(format!("v1.2.z-{CHECKSUM}")),
        Err(IdError::Version(VersionError::ParseInt(_)))
    ));
}

#[test]
fn id_checksum_of_63_characters() {
    let short = &CHECKSUM[..63];
    assert!(matches!(
        Id::try_from(format!("v1.2.3-{short}")),
        Err(IdError::HashLen)
    ));
}

#[test]
fn id_checksum_not_hex() {
    let bad = format!("{}g", &CHECKSUM[..63]);
    assert!(matches!(
        Id::try_from(format!("v1.2.3-{bad}")),
        Err(IdError::FromHexError(_))
    ));
}

#[test]
fn id_length_is_checked_before_hex() {
    let bad = "zz".repeat(20);
    assert!(matches!(
        Id::try_from(format!("v1.2.3-{bad}")),
        Err(IdError::HashLen)
    ));
}

#[test]
fn id_status_equality() {
    let id = Id::try_from(format!("v1.2.3-{CHECKSUM}")).unwrap();
    let a = IdStatus {
        id: id.clone(),
        status: Status::Released,
    };
    let b = IdStatus {
        id: id.clone(),
        status: Status::Yanked,
    };
    assert_eq!(a, a.clone());
    assert_ne!(a, b);
}
