use c3pg::dependency::Dependency;
use regex::Regex;

fn dep(name: &str, version: Option<&str>, channel: Option<&str>) -> Dependency {
    Dependency {
        name: name.to_string(),
        version: version.map(|s| s.to_string()),
        user: None,
        channel: channel.map(|s| s.to_string()),
    }
}

#[test]
fn parses_references() {
    let d = Dependency::from_str("fmt/10.2.1").unwrap();
    assert_eq!(d.name, "fmt");
    assert_eq!(d.version.as_deref(), Some("10.2.1"));
    assert!(d.channel.is_none());

    let d = Dependency::from_str("  mylib/1.0.0@stable#rev").unwrap();
    assert_eq!(d.name, "mylib");
    assert_eq!(d.version.as_deref(), Some("1.0.0"));
    assert_eq!(d.channel.as_deref(), Some("stable"));

    let d = Dependency::from_str("mylib/1.0.0@myuser/stable").unwrap();
    assert_eq!(d.name, "mylib");
    assert_eq!(d.version.as_deref(), Some("1.0.0"));
    assert_eq!(d.user.as_deref(), Some("myuser"));
    assert_eq!(d.channel.as_deref(), Some("stable"));

    let d = Dependency::from_str("gtest").unwrap();
    assert_eq!(d.name, "gtest");
    assert!(d.version.is_none());

    assert!(Dependency::from_str("").is_err());
    assert_eq!(Dependency::from_str("/1.0").unwrap_err().to_string(), "Did not match");
}

/// The parser agrees with the regular expression it stands for.
#[test]
fn parser_agrees_with_pattern() {
    let re = Regex::new(
        r"^\s*(?P<name>[^/]+)(?:/(?P<version>[^@#:]+))?(?:@(?P<channel>[^#:]+))?(?::|#)?.*$",
    )
    .unwrap();
    let inputs = [
        "fmt", "fmt/1.0", "fmt/1.0@stable", "fmt/1.0@stable#abc", "fmt/1.0:pkgid", "  x/2",
        " /", "/", "", "   ", "a@b", "a/@b", "a/b@", "a/b@#", "a/b\nc", "a\n/b", "n/v#r\n",
        "\t\tq/1@c:x", "a/b/c@d/e", "x/1.0#", " \n", "a b/c d", "é/ü@ß", "m/1@u/c",
        "m/1@/c", "m/1@u/", "m/1@u/c/d#r", "m@u/c",
    ];
    for input in inputs {
        let expected = re.captures(input).map(|c| {
            let (user, channel) = match c.name("channel").map(|m| m.as_str()) {
                Some(part) => match part.split_once('/') {
                    Some((u, ch)) if !u.is_empty() && !ch.is_empty() => {
                        (Some(u.to_string()), Some(ch.to_string()))
                    }
                    _ => (None, Some(part.to_string())),
                },
                None => (None, None),
            };
            (
                c.name("name").unwrap().as_str().to_string(),
                c.name("version").map(|m| m.as_str().to_string()),
                user,
                channel,
            )
        });
        let got = Dependency::from_str(input)
            .ok()
            .map(|d| (d.name, d.version, d.user, d.channel));
        assert_eq!(got, expected, "input {input:?}");
    }
}

#[test]
fn text_reads_back() {
    for d in [
        dep("fmt", None, None),
        dep("fmt", Some("10.2.1"), None),
        dep("mylib", Some("1.0.0"), Some("stable")),
    ] {
        let text = d.to_string();
        let back = Dependency::from_str(&text).unwrap();
        assert_eq!(back.name, d.name);
        assert_eq!(back.version, d.version);
        assert_eq!(back.channel, d.channel);
    }
    let d = Dependency {
        name: "lib".to_string(),
        version: Some("1".to_string()),
        user: Some("me".to_string()),
        channel: Some("testing".to_string()),
    };
    assert_eq!(d.to_string(), "lib/1@me/testing");
    let back = Dependency::from_str(&d.to_string()).unwrap();
    assert_eq!(back.user.as_deref(), Some("me"));
    assert_eq!(back.channel.as_deref(), Some("testing"));
}

#[test]
fn matching_rules() {
    let any = dep("fmt", None, None);
    let v10 = dep("fmt", Some("10"), None);
    let v11 = dep("fmt", Some("11"), Some("stable"));
    assert!(any.matches(&v10) && v10.matches(&any));
    assert!(v10.matches(&v10));
    assert!(!v10.matches(&v11) && !v11.matches(&v10));
    assert!(!any.matches(&dep("zlib", None, None)));
    assert!(dep("fmt", Some("11"), None).matches(&v11));
    assert!(!dep("fmt", Some("11"), Some("dev")).matches(&v11));
}
