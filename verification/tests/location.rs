use rekordcrate::location::make_location_uri;

#[test]
fn windows_base_path_and_spaces() {
    assert_eq!(
        make_location_uri("O:\\PIONEER\\ESD USB N Drive", "/Contents/Artist/file.mp3"),
        "file://localhost/O:/PIONEER/ESD%20USB%20N%20Drive/Contents/Artist/file.mp3"
    );
}

#[test]
fn trailing_and_leading_slashes_collapse() {
    assert_eq!(
        make_location_uri("D:\\Music\\\\", "//a/b.mp3"),
        "file://localhost/D:/Music/a/b.mp3"
    );
    assert_eq!(make_location_uri("D:/Music/", "a.mp3"), "file://localhost/D:/Music/a.mp3");
}

#[test]
fn reserved_characters_are_escaped() {
    assert_eq!(
        make_location_uri("E:", "/100% #1 hit?.mp3"),
        "file://localhost/E:/100%25%20%231%20hit%3F.mp3"
    );
}

#[test]
fn backslashes_in_device_path_are_kept() {
    assert_eq!(make_location_uri("C:", "\\x.mp3"), "file://localhost/C:/\\x.mp3");
}

#[test]
fn empty_inputs() {
    assert_eq!(make_location_uri("", ""), "file://localhost//");
    assert_eq!(make_location_uri("\\", "/"), "file://localhost//");
}

#[test]
fn non_ascii_characters_stand_for_themselves() {
    assert_eq!(
        make_location_uri("F:\\Müsik", "/Björk/Jóga.mp3"),
        "file://localhost/F:/Müsik/Björk/Jóga.mp3"
    );
}

/// Undoes the four escapes that locations use.
fn decode(s: &str) -> String {
    let chars: Vec<char> = s.chars().collect();
    let mut out = String::new();
    let mut i = 0;
    while i < chars.len() {
        if chars[i] == '%' && i + 2 < chars.len() {
            let c = match (chars[i + 1], chars[i + 2]) {
                ('2', '0') => Some(' '),
                ('2', '3') => Some('#'),
                ('2', '5') => Some('%'),
                ('3', 'F') => Some('?'),
                _ => None,
            };
            if let Some(c) = c {
                out.push(c);
                i += 3;
                continue;
            }
        }
        out.push(chars[i]);
        i += 1;
    }
    out
}

#[test]
fn location_reads_back_to_the_joined_path() {
    let uri = make_location_uri("G:\\Sets\\", "/%20 #?% x/y.mp3");
    let rest = uri.strip_prefix("file://localhost/").unwrap();
    assert!(!rest.contains(' ') && !rest.contains('#') && !rest.contains('?'));
    assert_eq!(decode(rest), "G:/Sets/%20 #?% x/y.mp3");
}
