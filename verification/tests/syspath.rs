use std::path::{Path, PathBuf};

use touchpad_toggle_daemon::syspath::SysPath;

const SPELLINGS: [&str; 24] = [
    "",
    "/",
    "//",
    ".",
    "./",
    "/.",
    "..",
    "/..",
    "a",
    "a/",
    "a//b",
    "/a",
    "//a",
    "/a/b",
    "/a/b/",
    "/a/./b",
    "./a",
    "././a/b",
    "a/.",
    "/ab",
    "/a/bc",
    "../a",
    ".a/b",
    "/sys/devices/pci0000:00/usb1/0003:046D:C52B.0001/input/input9/event4",
];

fn path(text: &str) -> SysPath {
    SysPath::parse(text.as_bytes())
}

fn std_path(path: &SysPath) -> PathBuf {
    PathBuf::from(String::from_utf8(path.to_bytes()).unwrap())
}

#[test]
fn spelling_names_the_path_that_was_read() {
    for text in SPELLINGS {
        assert_eq!(std_path(&path(text)), Path::new(text), "{text:?}");
    }
}

#[test]
fn spelling_is_read_back() {
    for text in SPELLINGS {
        let once = path(text);
        let again = SysPath::parse(&once.to_bytes());
        assert!(again.same_as(&once), "{text:?}");
        assert_eq!(again.to_bytes(), once.to_bytes());
    }
}

#[test]
fn spelling_is_the_plainest_one() {
    assert_eq!(path("//a/./b//").to_bytes(), b"/a/b");
    assert_eq!(path("././a/").to_bytes(), b"./a");
    assert_eq!(path("/").to_bytes(), b"/");
    assert_eq!(path("").to_bytes(), b"");
    assert_eq!(SysPath::parse(b"/\xff/b").to_bytes(), b"/\xff/b");
}

#[test]
fn parents_are_those_of_the_standard_library() {
    for text in SPELLINGS {
        let parent = path(text).parent();
        assert_eq!(
            parent.as_ref().map(std_path).as_deref(),
            Path::new(text).parent(),
            "{text:?}"
        );
    }
}

#[test]
fn prefixes_are_those_of_the_standard_library() {
    for text in SPELLINGS {
        for base in SPELLINGS {
            assert_eq!(
                path(text).starts_with(&path(base)),
                Path::new(text).starts_with(base),
                "{text:?} {base:?}"
            );
        }
    }
}

#[test]
fn equality_is_that_of_the_standard_library() {
    for text in SPELLINGS {
        for other in SPELLINGS {
            assert_eq!(
                path(text).same_as(&path(other)),
                Path::new(text) == Path::new(other),
                "{text:?} {other:?}"
            );
        }
    }
}

#[test]
fn path_lies_below_its_parent() {
    for text in SPELLINGS {
        let whole = path(text);
        if let Some(parent) = whole.parent() {
            assert!(whole.starts_with(&parent));
            assert!(!parent.starts_with(&whole));
        }
    }
}

#[test]
fn copy_is_the_same_path() {
    for text in SPELLINGS {
        let whole = path(text);
        assert!(whole.clone().same_as(&whole));
    }
}
