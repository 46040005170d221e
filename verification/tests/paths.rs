use std::path::Path;
use t2fanrd::paths::{has_file_name, with_suffix};

#[test]
fn suffix_goes_where_the_standard_library_puts_it() {
    let paths = [
        "", "/", ".", "..", "a", "a/", "a//", "a/.", "a/./", "/a", "//a", "./a", ".//a", "../a",
        "a/..", "a/b", "a//b", "a/./b", "a/b/", "/./b", "a.", "a/b.", "a/.b", "...", "a/...", "./.",
        "/.", "//", "/sys/class/hwmon/hwmon3/fan1", "é/ü",
    ];
    for path in paths {
        let expected = Path::new(path).file_name().map(|name| {
            let name = name.to_str().unwrap();
            let file = Path::new(path).with_file_name(format!("{name}_target"));
            file.to_str().unwrap().to_owned()
        });
        assert_eq!(with_suffix(path, "_target"), expected, "{path}");
        assert_eq!(has_file_name(path), expected.is_some(), "{path}");
    }
}
