use minimake::mkfile::ConcreteTarget;
use minimake::mkfile::MkFile;
use minimake::mkfile::Target;

#[test]
fn test_parse() {
    let input = "out.txt: in.txt\n\techo hi > out.txt\n\n$all: out.txt ^assets $extra\n\tls\n\techo done\n";
    let mk = MkFile::parse(input);

    let out = Target::parse("out.txt");
    assert!(mk.has_target(&out));
    assert_eq!(
        mk.dependencies(&out),
        &vec![Target::Concrete(ConcreteTarget::Shallow("in.txt".to_string()))]
    );
    assert_eq!(mk.commands(&out), &vec!["echo hi > out.txt".to_string()]);

    let all = Target::parse("$all");
    assert!(mk.has_target(&all));
    assert_eq!(
        mk.dependencies(&all),
        &vec![
            Target::Concrete(ConcreteTarget::Shallow("out.txt".to_string())),
            Target::Concrete(ConcreteTarget::Deep("assets".to_string())),
            Target::Virtual("extra".to_string()),
        ]
    );
    assert_eq!(mk.commands(&all), &vec!["ls".to_string(), "echo done".to_string()]);

    // $extra is only named as a dependency, never declared
    assert!(!mk.has_target(&Target::parse("$extra")));
}

#[test]
fn target_parse_prefixes() {
    assert_eq!(Target::parse("$clean"), Target::Virtual("clean".to_string()));
    assert_eq!(
        Target::parse("^dir/sub"),
        Target::Concrete(ConcreteTarget::Deep("dir/sub".to_string()))
    );
    assert_eq!(
        Target::parse("a.txt"),
        Target::Concrete(ConcreteTarget::Shallow("a.txt".to_string()))
    );
    assert_eq!(
        Target::parse(""),
        Target::Concrete(ConcreteTarget::Shallow("".to_string()))
    );
}

#[test]
fn shallow_and_deep_are_distinct() {
    assert_ne!(Target::parse("x"), Target::parse("^x"));
    assert_ne!(
        ConcreteTarget::Shallow("x".to_string()),
        ConcreteTarget::Deep("x".to_string())
    );
}

#[test]
fn malformed_text_yields_no_rules() {
    let mk = MkFile::parse("just some prose\nwithout any colon lines\n\n  indented orphan\n");
    assert!(!mk.has_target(&Target::parse("just")));
    assert!(!mk.has_target(&Target::parse("prose")));
    assert!(!mk.has_target(&Target::parse("indented")));

    // a would-be header whose token holds whitespace is skipped
    let mk2 = MkFile::parse("foo bar: baz\n");
    assert!(!mk2.has_target(&Target::parse("foo")));
    assert!(!mk2.has_target(&Target::parse("bar")));
    assert!(!mk2.has_target(&Target::parse("baz")));
}

#[test]
fn duplicate_rule_last_wins() {
    let mk = MkFile::parse("a: b\n\tfirst\na: c\n\tsecond\n");
    let a = Target::parse("a");
    assert!(mk.has_target(&a));
    assert_eq!(mk.dependencies(&a), &vec![Target::parse("c")]);
    assert_eq!(mk.commands(&a), &vec!["second".to_string()]);
}

#[test]
fn command_lines_trimmed_and_blank_dropped() {
    let mk = MkFile::parse("a:\n\t  cmd one  \n\t   \n\tcmd two\n");
    let a = Target::parse("a");
    assert!(mk.has_target(&a));
    assert!(mk.dependencies(&a).is_empty());
    assert_eq!(
        mk.commands(&a),
        &vec!["cmd one".to_string(), "cmd two".to_string()]
    );
}

#[test]
fn block_ends_at_blank_line() {
    let mk = MkFile::parse("a:\n\tcmd\n\n\torphan\nb:\n\tother\n");
    // the orphan line after the blank belongs to no block
    assert_eq!(mk.commands(&Target::parse("a")), &vec!["cmd".to_string()]);
    assert_eq!(mk.commands(&Target::parse("b")), &vec!["other".to_string()]);
}

#[test]
fn whitespace_before_colon_allowed() {
    let mk = MkFile::parse("a : b c\n");
    let a = Target::parse("a");
    assert!(mk.has_target(&a));
    assert_eq!(
        mk.dependencies(&a),
        &vec![Target::parse("b"), Target::parse("c")]
    );
}

#[test]
fn colon_inside_target_token() {
    // when no colon follows the leading token, the separator is the last
    // colon inside it
    let mk = MkFile::parse("a:b: c\n\tcmd\n");
    let t = Target::parse("a:b");
    assert!(mk.has_target(&t));
    assert_eq!(mk.dependencies(&t), &vec![Target::parse("c")]);
    assert!(!mk.has_target(&Target::parse("a")));
}

#[test]
fn final_line_without_newline() {
    let mk = MkFile::parse("a: b\n\tcmd");
    let a = Target::parse("a");
    assert!(mk.has_target(&a));
    assert_eq!(mk.commands(&a), &vec!["cmd".to_string()]);
}

#[test]
fn parse_deterministic() {
    let input = "out: in\n\tcc in\n$all: out\n\techo ok\n";
    let a = MkFile::parse(input);
    let b = MkFile::parse(input);
    assert_eq!(format!("{:?}", a), format!("{:?}", b));
    for tok in ["out", "$all"] {
        let t = Target::parse(tok);
        assert!(a.has_target(&t) && b.has_target(&t));
        assert_eq!(a.dependencies(&t), b.dependencies(&t));
        assert_eq!(a.commands(&t), b.commands(&t));
    }
}
