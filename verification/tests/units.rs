use zboxfs::check_version_limit;
use zboxfs::error::{render_u32, translate, BridgeError};
use zboxfs::kind::ResourceKind;
use zboxfs::paths::{child_name, is_direct_child, path_is_rooted, path_validate};
use zboxfs::seek::{resolve_seek, to_seek_from, SeekSpec};
use zboxfs::time_to_secs;
use zboxfs::u8_to_bool;
use zboxfs::values::{Cipher, FileKind, MemLimit, OpsLimit, Timestamp};

#[test]
fn bool_conversion() {
    assert_eq!(u8_to_bool(0), false);
    assert_eq!(u8_to_bool(1), true);
}

#[test]
fn version_limit_clamps_out_of_range_to_zero() {
    assert_eq!(check_version_limit(0), 0);
    assert_eq!(check_version_limit(256), 0);
    assert_eq!(check_version_limit(-1), 0);
    assert_eq!(check_version_limit(1), 1);
    assert_eq!(check_version_limit(255), 255);
}

#[test]
fn version_limit_inside_range_passes_through() {
    assert_eq!(check_version_limit(10), 10);
    assert_eq!(check_version_limit(254), 254);
    assert_eq!(check_version_limit(-2147483648), 0);
    assert_eq!(check_version_limit(2147483647), 0);
}

#[test]
fn time_truncates_subseconds() {
    assert_eq!(time_to_secs(Timestamp { secs: 12345, nanos: 999_999_999 }), 12345);
    assert_eq!(time_to_secs(Timestamp { secs: 0, nanos: 1 }), 0);
}

#[test]
fn kind_ids_are_fixed() {
    assert_eq!(ResourceKind::Opener.id(), 100);
    assert_eq!(ResourceKind::Repository.id(), 101);
    assert_eq!(ResourceKind::FileOptions.id(), 102);
    assert_eq!(ResourceKind::File.id(), 103);
    assert_eq!(ResourceKind::VersionReader.id(), 104);
}

#[test]
fn kind_ids_round_trip() {
    for k in [
        ResourceKind::Opener,
        ResourceKind::Repository,
        ResourceKind::FileOptions,
        ResourceKind::File,
        ResourceKind::VersionReader,
    ] {
        assert_eq!(ResourceKind::from_id(k.id()), Some(k));
    }
    assert_eq!(ResourceKind::from_id(99), None);
    assert_eq!(ResourceKind::from_id(105), None);
}

#[test]
fn seek_origin_codes() {
    assert_eq!(to_seek_from(7, 0), SeekSpec::Start(7));
    assert_eq!(to_seek_from(-3, 1), SeekSpec::Current(-3));
    assert_eq!(to_seek_from(-3, 2), SeekSpec::End(-3));
    // a negative offset with the start origin is reinterpreted as unsigned
    assert_eq!(to_seek_from(-1, 0), SeekSpec::Start(u64::MAX));
}

#[test]
fn seek_resolution() {
    assert_eq!(resolve_seek(100, 40, SeekSpec::Start(7)), Some(7));
    assert_eq!(resolve_seek(100, 40, SeekSpec::Current(-3)), Some(37));
    assert_eq!(resolve_seek(100, 40, SeekSpec::End(-3)), Some(97));
    assert_eq!(resolve_seek(100, 40, SeekSpec::End(3)), Some(103));
    // a position before the start of the stream is invalid
    assert_eq!(resolve_seek(100, 40, SeekSpec::Current(-41)), None);
    assert_eq!(resolve_seek(100, 40, SeekSpec::End(-101)), None);
}

#[test]
fn seek_then_position_query_returns_set_value() {
    let newpos = resolve_seek(100, 40, SeekSpec::End(-25)).unwrap();
    assert_eq!(resolve_seek(100, newpos, SeekSpec::Current(0)), Some(newpos));
    let newpos = resolve_seek(100, 40, SeekSpec::Start(250)).unwrap();
    assert_eq!(resolve_seek(100, newpos, SeekSpec::Current(0)), Some(newpos));
}

#[test]
fn error_codes_and_descriptions() {
    assert_eq!(BridgeError::NotFound.code(), 1001);
    assert_eq!(BridgeError::InvalidPath.code(), 1007);
    assert_eq!(BridgeError::NoResourceAttached.code(), 1008);
    assert_eq!(BridgeError::NotFound.description(), "item not found");
    assert_eq!(BridgeError::InvalidPath.description(), "invalid path");
}

#[test]
fn decimal_rendering() {
    assert_eq!(render_u32(0), "0");
    assert_eq!(render_u32(7), "7");
    assert_eq!(render_u32(10), "10");
    assert_eq!(render_u32(1005), "1005");
    assert_eq!(render_u32(4294967295), "4294967295");
}

#[test]
fn translate_uses_native_description() {
    let ex = translate(&BridgeError::NotFound, None);
    assert_eq!(ex.code, 1001);
    assert_eq!(ex.message, "item not found (1001)");
}

#[test]
fn translate_prefers_pending_exception_text() {
    let ex = translate(&BridgeError::NotFound, Some(String::from("boom from callback")));
    assert_eq!(ex.code, 1001);
    assert_eq!(ex.message, "boom from callback (1001)");
}

#[test]
fn enum_names_round_trip() {
    for k in [FileKind::File, FileKind::Dir] {
        assert_eq!(FileKind::from_name(k.name()), Some(k));
    }
    for c in [Cipher::Xchacha, Cipher::Aes] {
        assert_eq!(Cipher::from_name(c.name()), Some(c));
    }
    for l in [OpsLimit::Interactive, OpsLimit::Moderate, OpsLimit::Sensitive] {
        assert_eq!(OpsLimit::from_name(l.name()), Some(l));
    }
    for l in [MemLimit::Interactive, MemLimit::Moderate, MemLimit::Sensitive] {
        assert_eq!(MemLimit::from_name(l.name()), Some(l));
    }
}

#[test]
fn enum_names_are_upper_case_symbols() {
    assert_eq!(FileKind::File.name(), "FILE");
    assert_eq!(FileKind::Dir.name(), "DIR");
    assert_eq!(Cipher::Xchacha.name(), "XCHACHA");
    assert_eq!(Cipher::Aes.name(), "AES");
    assert_eq!(OpsLimit::Sensitive.name(), "SENSITIVE");
    assert_eq!(MemLimit::Moderate.name(), "MODERATE");
}

#[test]
fn unknown_enum_name_does_not_resolve() {
    assert_eq!(FileKind::from_name("file"), None);
    assert_eq!(Cipher::from_name(""), None);
    assert_eq!(OpsLimit::from_name("EXTREME"), None);
}

#[test]
fn enum_codes_resolve() {
    assert_eq!(Cipher::from_code(0), Some(Cipher::Xchacha));
    assert_eq!(Cipher::from_code(1), Some(Cipher::Aes));
    assert_eq!(Cipher::from_code(2), None);
    assert_eq!(OpsLimit::from_code(2), Some(OpsLimit::Sensitive));
    assert_eq!(MemLimit::from_code(-1), None);
}

#[test]
fn path_rooted_check() {
    assert!(path_is_rooted("/"));
    assert!(path_is_rooted("/a/b.txt"));
    assert!(!path_is_rooted(""));
    assert!(!path_is_rooted("relative/path"));
}

#[test]
fn path_validation_rejects_null_and_unrooted() {
    assert_eq!(path_validate(None), Err(BridgeError::InvalidPath));
    assert_eq!(path_validate(Some("relative/path")), Err(BridgeError::InvalidPath));
    assert_eq!(path_validate(Some("/a")), Ok(()));
}

#[test]
fn direct_children() {
    assert!(is_direct_child("/", "/a"));
    assert!(!is_direct_child("/", "/a/b"));
    assert!(is_direct_child("/a", "/a/b"));
    assert!(!is_direct_child("/a", "/a"));
    assert!(!is_direct_child("/a", "/ab"));
    assert!(!is_direct_child("/a", "/a/b/c"));
    assert_eq!(child_name("/a", "/a/b.txt"), "b.txt");
    assert_eq!(child_name("/", "/top"), "top");
}
