use nitrocop::cop::lint::deprecated_constants::{
    deprecated_info, deprecated_message, normalize_constant_name, ConfiguredConstant, ConstantRef, DeprecatedConstants,
    VersionCheck,
};

fn msg_of(src: &[u8], c: &ConstantRef, cfg: &Vec<ConfiguredConstant>, check: VersionCheck) -> Option<(usize, usize, String)> {
    DeprecatedConstants
        .check_node(src, c, cfg, check)
        .map(|d| (d.location.line, d.location.column, String::from_utf8(d.message).unwrap()))
}

#[test]
fn flags_cbase_configured_constant_paths() {
    let src = b"::Random::DEFAULT\n";
    let cfg = vec![ConfiguredConstant {
        name: b"Random::DEFAULT".to_vec(),
        alternative: Some(b"Random.new".to_vec()),
        deprecated_version: Some(b"3.0".to_vec()),
    }];
    let r = msg_of(src, &ConstantRef::Path { start: 0, end: 17 }, &cfg, VersionCheck::Applies);
    assert_eq!(
        r,
        Some((1, 0, "Use `Random.new` instead of `::Random::DEFAULT`, deprecated since Ruby 3.0.".to_string()))
    );
}

#[test]
fn flags_builtin_random_default_when_used_as_receiver() {
    let src = b"::Random::DEFAULT.rand(max)\n";
    let r = msg_of(src, &ConstantRef::Path { start: 0, end: 17 }, &vec![], VersionCheck::Applies);
    assert_eq!(
        r,
        Some((1, 0, "Use `Random.new` instead of `::Random::DEFAULT`, deprecated since Ruby 3.0.".to_string()))
    );
}

#[test]
fn version_not_reached_or_unparsable() {
    let src = b"NIL\n";
    let c = ConstantRef::Read { name: b"NIL".to_vec(), start: 0 };
    assert_eq!(msg_of(src, &c, &vec![], VersionCheck::NotYet), None);
    assert_eq!(msg_of(src, &c, &vec![], VersionCheck::Unparsable), None);
    assert_eq!(
        msg_of(src, &c, &vec![], VersionCheck::Applies),
        Some((1, 0, "Use `nil` instead of `NIL`, deprecated since Ruby 2.4.".to_string()))
    );
    assert_eq!(msg_of(b"Foo\n", &ConstantRef::Read { name: b"Foo".to_vec(), start: 0 }, &vec![], VersionCheck::Applies), None);
}

#[test]
fn configured_entries_take_precedence() {
    let cfg = vec![
        ConfiguredConstant { name: b"::NIL".to_vec(), alternative: None, deprecated_version: None },
        ConfiguredConstant { name: b"OLD".to_vec(), alternative: None, deprecated_version: Some(b"2.0".to_vec()) },
    ];
    let src = b"NIL\n";
    let c = ConstantRef::Read { name: b"NIL".to_vec(), start: 0 };
    assert_eq!(msg_of(src, &c, &cfg, VersionCheck::NotYet), Some((1, 0, "Do not use `NIL`.".to_string())));
    let c = ConstantRef::Read { name: b"OLD".to_vec(), start: 0 };
    assert_eq!(
        msg_of(b"OLD\n", &c, &cfg, VersionCheck::Applies),
        Some((1, 0, "Do not use `OLD`, deprecated since Ruby 2.0.".to_string()))
    );
    let info = deprecated_info(b"Struct::Group", &vec![]).unwrap();
    assert_eq!(info.alternative, Some(b"Etc::Group".to_vec()));
    let m = deprecated_message(b"Struct::Group", &info, VersionCheck::Applies).unwrap();
    assert_eq!(m, b"Use `Etc::Group` instead of `Struct::Group`, deprecated since Ruby 3.0.".to_vec());
    assert_eq!(normalize_constant_name(b"::Foo"), b"Foo");
    assert_eq!(normalize_constant_name(b"Foo"), b"Foo");
}
