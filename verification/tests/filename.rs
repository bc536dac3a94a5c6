use packager::filename::{check_filename, reserved_name};
use packager::paths::FilePath;
use packager::report::{ErrorKind, Level};

#[test]
fn colon_is_rejected() {
    let r = check_filename(&FilePath::parse("src/a:b.rs"));
    let e = r.err().unwrap();
    assert_eq!(e.kind, ErrorKind::SpecialCharacter);
    assert_eq!(
        e.message,
        "cannot package a filename with a special character `:`: src/a:b.rs"
    );
}

#[test]
fn every_forbidden_character_is_rejected() {
    for c in ['\\', '<', '>', ':', '"', '|', '?', '*'] {
        let name = format!("a{}b", c);
        let e = check_filename(&FilePath::single(&name)).err().unwrap();
        assert_eq!(e.kind, ErrorKind::SpecialCharacter);
        assert_eq!(
            e.message,
            format!("cannot package a filename with a special character `{}`: a{}b", c, c)
        );
    }
    let e = check_filename(&FilePath::single("a/b")).err().unwrap();
    assert_eq!(e.message, "cannot package a filename with a special character `/`: a/b");
}

#[test]
fn first_forbidden_in_list_order_is_named() {
    // `*` comes first in the name, `<` comes first in the list
    let e = check_filename(&FilePath::single("a*b<c")).err().unwrap();
    assert_eq!(e.message, "cannot package a filename with a special character `<`: a*b<c");
}

#[test]
fn directories_are_not_checked() {
    assert!(check_filename(&FilePath::parse("a:b/c.rs")).unwrap().is_none());
}

#[test]
fn plain_names_pass() {
    assert!(check_filename(&FilePath::parse("src/lib.rs")).unwrap().is_none());
    assert!(check_filename(&FilePath::parse("")).unwrap().is_none());
    assert!(check_filename(&FilePath::parse("a/..")).unwrap().is_none());
}

#[test]
fn reserved_names_warn() {
    let n = check_filename(&FilePath::parse("src/aux.rs")).unwrap().unwrap();
    assert_eq!(n.level, Level::Warning);
    assert_eq!(
        n.message,
        "file src/aux.rs is a reserved Windows filename, it will not work on Windows platforms"
    );
}

#[test]
fn reserved_names_ignore_case_and_extension() {
    for name in ["con", "CON", "Prn.txt", "nul.tar.gz", "COM1", "com9.c", "lpt1", "LPT9.x"] {
        assert!(reserved_name(name), "{}", name);
    }
    for name in ["console", "com0", "com10", "lpt", "a.con", "nu", ""] {
        assert!(!reserved_name(name), "{}", name);
    }
}
